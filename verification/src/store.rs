//! The part of the store that one operation reads and writes.
use crate::keyring::{Keys, KeysModel};
use crate::lifecycle::{AccountProof, AccountProofModel, MailDelivery, MailDeliveryModel, MailLimit, MailLimitModel};
use crate::logout::{RpSession, RpSessionModel};
use crate::model::{Attempts, AttemptsModel, Audit, AuditModel, AuthenticationTransaction, AuthenticationTransactionModel, Client, ClientModel, Code, CodeModel, Device, DeviceModel, Family, FamilyModel, Grant, GrantModel, Group, GroupModel, Session, SessionModel, User, UserModel};
use crate::mtls::{Binding, BindingModel, LoginLink, LoginLinkModel};
use crate::outpost::{ProxySession, ProxySessionModel};
use crate::pam::{AccessGrant, AccessGrantModel, AccessRequest, AccessRequestModel};
use crate::passkey::{Authentication, AuthenticationModel, Credential, CredentialModel, Registration, RegistrationModel};
use crate::password_history::{History, HistoryModel};
use crate::portal::sign_in::{SignIn, SignInModel};
use crate::provisioning::{Link, LinkModel, Plan, PlanModel};
use crate::radius::cache::{Cached, CachedModel};
use crate::radius::enrollment::{IdentityBinding, IdentityBindingModel};
use crate::registration::{InitialAccess, InitialAccessModel};
use crate::table::{Row, Table, views};
use vstd::prelude::*;
use vstd::string::*;

verus! {

/// A transaction: the tables that the caller loaded, the time, and the source of identifiers.
pub struct Tx {
    /// The time of the transaction, in seconds.
    pub now: u64,
    /// The random text that the identifiers of this transaction derive from.
    pub seed: String,
    /// How many identifiers were drawn.
    pub drawn: u64,
    /// The audit entries that the transaction appended.
    pub audit: Vec<Audit>,
    /// The issuer that the store was created for.
    pub issuer: Option<String>,
    pub revision: u64,
    pub keys: Keys,
    pub key_domains: Table<Keys>,
    pub users: Table<User>,
    pub usernames: Table<String>,
    pub groups: Table<Group>,
    pub clients: Table<Client>,
    pub sessions: Table<Session>,
    pub session_tokens: Table<String>,
    pub browser_sessions: Table<String>,
    pub authentication: Table<AuthenticationTransaction>,
    pub codes: Table<Code>,
    pub devices: Table<Device>,
    pub device_users: Table<String>,
    pub access: Table<Grant>,
    pub refresh: Table<Grant>,
    pub families: Table<Family>,
    pub attempts: Table<Attempts>,
    pub assertion_replays: Table<u64>,
    pub rp_sessions: Table<RpSession>,
    pub logout_deliveries: Table<crate::logout::Delivery>,
    pub mtls_bindings: Table<Binding>,
    pub mtls_fingerprints: Table<String>,
    pub mtls_san_emails: Table<String>,
    pub mtls_san_uris: Table<String>,
    pub mtls_users: Table<String>,
    pub mtls_logins: Table<LoginLink>,
    pub proxy_pending: Table<crate::outpost::Pending>,
    pub proxy_sessions: Table<ProxySession>,
    pub portal_requests: Table<SignIn>,
    pub portal_codes: Table<String>,
    pub registrations: Table<InitialAccess>,
    pub registration_tokens: Table<String>,
    pub passkeys: Table<Credential>,
    pub passkey_registration: Table<Registration>,
    pub passkey_authentication: Table<Authentication>,
    pub access_requests: Table<AccessRequest>,
    pub access_grants: Table<AccessGrant>,
    pub password_history: Table<History>,
    pub account_proofs: Table<AccountProof>,
    pub account_latest: Table<String>,
    pub mail_limits: Table<MailLimit>,
    pub mail_deliveries: Table<MailDelivery>,
    pub offboard_jobs: Table<crate::offboarding::Job>,
    pub radius_requests: Table<Cached>,
    pub radius_certificates: Table<crate::radius::enrollment::Certificate>,
    pub radius_certificate_ids: Table<String>,
    pub radius_eap_identities: Table<IdentityBinding>,
    pub provisioning_plans: Table<Plan>,
    pub provisioning_jobs: Table<crate::provisioning::Job>,
    pub provisioning_links: Table<Link>,
}

/// What a [`Tx`] holds.
pub struct TxModel {
    pub now: u64,
    pub seed: Seq<char>,
    pub drawn: u64,
    pub audit: Seq<AuditModel>,
    pub issuer: Option<Seq<char>>,
    pub revision: u64,
    pub keys: KeysModel,
    pub key_domains: Map<Seq<char>, KeysModel>,
    pub users: Map<Seq<char>, UserModel>,
    pub usernames: Map<Seq<char>, Seq<char>>,
    pub groups: Map<Seq<char>, GroupModel>,
    pub clients: Map<Seq<char>, ClientModel>,
    pub sessions: Map<Seq<char>, SessionModel>,
    pub session_tokens: Map<Seq<char>, Seq<char>>,
    pub browser_sessions: Map<Seq<char>, Seq<char>>,
    pub authentication: Map<Seq<char>, AuthenticationTransactionModel>,
    pub codes: Map<Seq<char>, CodeModel>,
    pub devices: Map<Seq<char>, DeviceModel>,
    pub device_users: Map<Seq<char>, Seq<char>>,
    pub access: Map<Seq<char>, GrantModel>,
    pub refresh: Map<Seq<char>, GrantModel>,
    pub families: Map<Seq<char>, FamilyModel>,
    pub attempts: Map<Seq<char>, AttemptsModel>,
    pub assertion_replays: Map<Seq<char>, u64>,
    pub rp_sessions: Map<Seq<char>, RpSessionModel>,
    pub logout_deliveries: Map<Seq<char>, crate::logout::DeliveryModel>,
    pub mtls_bindings: Map<Seq<char>, BindingModel>,
    pub mtls_fingerprints: Map<Seq<char>, Seq<char>>,
    pub mtls_san_emails: Map<Seq<char>, Seq<char>>,
    pub mtls_san_uris: Map<Seq<char>, Seq<char>>,
    pub mtls_users: Map<Seq<char>, Seq<char>>,
    pub mtls_logins: Map<Seq<char>, LoginLinkModel>,
    pub proxy_pending: Map<Seq<char>, crate::outpost::PendingModel>,
    pub proxy_sessions: Map<Seq<char>, ProxySessionModel>,
    pub portal_requests: Map<Seq<char>, SignInModel>,
    pub portal_codes: Map<Seq<char>, Seq<char>>,
    pub registrations: Map<Seq<char>, InitialAccessModel>,
    pub registration_tokens: Map<Seq<char>, Seq<char>>,
    pub passkeys: Map<Seq<char>, CredentialModel>,
    pub passkey_registration: Map<Seq<char>, RegistrationModel>,
    pub passkey_authentication: Map<Seq<char>, AuthenticationModel>,
    pub access_requests: Map<Seq<char>, AccessRequestModel>,
    pub access_grants: Map<Seq<char>, AccessGrantModel>,
    pub password_history: Map<Seq<char>, HistoryModel>,
    pub account_proofs: Map<Seq<char>, AccountProofModel>,
    pub account_latest: Map<Seq<char>, Seq<char>>,
    pub mail_limits: Map<Seq<char>, MailLimitModel>,
    pub mail_deliveries: Map<Seq<char>, MailDeliveryModel>,
    pub offboard_jobs: Map<Seq<char>, crate::offboarding::JobModel>,
    pub radius_requests: Map<Seq<char>, CachedModel>,
    pub radius_certificates: Map<Seq<char>, crate::radius::enrollment::CertificateModel>,
    pub radius_certificate_ids: Map<Seq<char>, Seq<char>>,
    pub radius_eap_identities: Map<Seq<char>, IdentityBindingModel>,
    pub provisioning_plans: Map<Seq<char>, PlanModel>,
    pub provisioning_jobs: Map<Seq<char>, crate::provisioning::JobModel>,
    pub provisioning_links: Map<Seq<char>, LinkModel>,
}

impl View for Tx {
    type V = TxModel;

    open spec fn view(&self) -> TxModel {
        TxModel {
            now: self.now,
            seed: self.seed@,
            drawn: self.drawn,
            audit: crate::table::views(self.audit@),
            issuer: crate::text::opt_text(self.issuer),
            revision: self.revision,
            keys: self.keys@,
            key_domains: self.key_domains@,
            users: self.users@,
            usernames: self.usernames@,
            groups: self.groups@,
            clients: self.clients@,
            sessions: self.sessions@,
            session_tokens: self.session_tokens@,
            browser_sessions: self.browser_sessions@,
            authentication: self.authentication@,
            codes: self.codes@,
            devices: self.devices@,
            device_users: self.device_users@,
            access: self.access@,
            refresh: self.refresh@,
            families: self.families@,
            attempts: self.attempts@,
            assertion_replays: self.assertion_replays@,
            rp_sessions: self.rp_sessions@,
            logout_deliveries: self.logout_deliveries@,
            mtls_bindings: self.mtls_bindings@,
            mtls_fingerprints: self.mtls_fingerprints@,
            mtls_san_emails: self.mtls_san_emails@,
            mtls_san_uris: self.mtls_san_uris@,
            mtls_users: self.mtls_users@,
            mtls_logins: self.mtls_logins@,
            proxy_pending: self.proxy_pending@,
            proxy_sessions: self.proxy_sessions@,
            portal_requests: self.portal_requests@,
            portal_codes: self.portal_codes@,
            registrations: self.registrations@,
            registration_tokens: self.registration_tokens@,
            passkeys: self.passkeys@,
            passkey_registration: self.passkey_registration@,
            passkey_authentication: self.passkey_authentication@,
            access_requests: self.access_requests@,
            access_grants: self.access_grants@,
            password_history: self.password_history@,
            account_proofs: self.account_proofs@,
            account_latest: self.account_latest@,
            mail_limits: self.mail_limits@,
            mail_deliveries: self.mail_deliveries@,
            offboard_jobs: self.offboard_jobs@,
            radius_requests: self.radius_requests@,
            radius_certificates: self.radius_certificates@,
            radius_certificate_ids: self.radius_certificate_ids@,
            radius_eap_identities: self.radius_eap_identities@,
            provisioning_plans: self.provisioning_plans@,
            provisioning_jobs: self.provisioning_jobs@,
            provisioning_links: self.provisioning_links@,
        }
    }
}

impl Row for Tx {
    fn dup(&self) -> (r: Self) {
        Tx {
            now: self.now,
            seed: self.seed.clone(),
            drawn: self.drawn,
            audit: crate::table::dup_list(&self.audit),
            issuer: crate::text::copy_opt(&self.issuer),
            revision: self.revision,
            keys: self.keys.dup(),
            key_domains: self.key_domains.dup(),
            users: self.users.dup(),
            usernames: self.usernames.dup(),
            groups: self.groups.dup(),
            clients: self.clients.dup(),
            sessions: self.sessions.dup(),
            session_tokens: self.session_tokens.dup(),
            browser_sessions: self.browser_sessions.dup(),
            authentication: self.authentication.dup(),
            codes: self.codes.dup(),
            devices: self.devices.dup(),
            device_users: self.device_users.dup(),
            access: self.access.dup(),
            refresh: self.refresh.dup(),
            families: self.families.dup(),
            attempts: self.attempts.dup(),
            assertion_replays: self.assertion_replays.dup(),
            rp_sessions: self.rp_sessions.dup(),
            logout_deliveries: self.logout_deliveries.dup(),
            mtls_bindings: self.mtls_bindings.dup(),
            mtls_fingerprints: self.mtls_fingerprints.dup(),
            mtls_san_emails: self.mtls_san_emails.dup(),
            mtls_san_uris: self.mtls_san_uris.dup(),
            mtls_users: self.mtls_users.dup(),
            mtls_logins: self.mtls_logins.dup(),
            proxy_pending: self.proxy_pending.dup(),
            proxy_sessions: self.proxy_sessions.dup(),
            portal_requests: self.portal_requests.dup(),
            portal_codes: self.portal_codes.dup(),
            registrations: self.registrations.dup(),
            registration_tokens: self.registration_tokens.dup(),
            passkeys: self.passkeys.dup(),
            passkey_registration: self.passkey_registration.dup(),
            passkey_authentication: self.passkey_authentication.dup(),
            access_requests: self.access_requests.dup(),
            access_grants: self.access_grants.dup(),
            password_history: self.password_history.dup(),
            account_proofs: self.account_proofs.dup(),
            account_latest: self.account_latest.dup(),
            mail_limits: self.mail_limits.dup(),
            mail_deliveries: self.mail_deliveries.dup(),
            offboard_jobs: self.offboard_jobs.dup(),
            radius_requests: self.radius_requests.dup(),
            radius_certificates: self.radius_certificates.dup(),
            radius_certificate_ids: self.radius_certificate_ids.dup(),
            radius_eap_identities: self.radius_eap_identities.dup(),
            provisioning_plans: self.provisioning_plans.dup(),
            provisioning_jobs: self.provisioning_jobs.dup(),
            provisioning_links: self.provisioning_links.dup(),
        }
    }
}

/// A store in which nothing is kept but its signing keys.
pub open spec fn empty_store(now: u64, seed: Seq<char>, keys: KeysModel) -> TxModel {
    TxModel {
        now,
        seed,
        drawn: 0,
        audit: Seq::empty(),
        issuer: None,
        revision: 0,
        keys,
        key_domains: Map::empty(),
        users: Map::empty(),
        usernames: Map::empty(),
        groups: Map::empty(),
        clients: Map::empty(),
        sessions: Map::empty(),
        session_tokens: Map::empty(),
        browser_sessions: Map::empty(),
        authentication: Map::empty(),
        codes: Map::empty(),
        devices: Map::empty(),
        device_users: Map::empty(),
        access: Map::empty(),
        refresh: Map::empty(),
        families: Map::empty(),
        attempts: Map::empty(),
        assertion_replays: Map::empty(),
        rp_sessions: Map::empty(),
        logout_deliveries: Map::empty(),
        mtls_bindings: Map::empty(),
        mtls_fingerprints: Map::empty(),
        mtls_san_emails: Map::empty(),
        mtls_san_uris: Map::empty(),
        mtls_users: Map::empty(),
        mtls_logins: Map::empty(),
        proxy_pending: Map::empty(),
        proxy_sessions: Map::empty(),
        portal_requests: Map::empty(),
        portal_codes: Map::empty(),
        registrations: Map::empty(),
        registration_tokens: Map::empty(),
        passkeys: Map::empty(),
        passkey_registration: Map::empty(),
        passkey_authentication: Map::empty(),
        access_requests: Map::empty(),
        access_grants: Map::empty(),
        password_history: Map::empty(),
        account_proofs: Map::empty(),
        account_latest: Map::empty(),
        mail_limits: Map::empty(),
        mail_deliveries: Map::empty(),
        offboard_jobs: Map::empty(),
        radius_requests: Map::empty(),
        radius_certificates: Map::empty(),
        radius_certificate_ids: Map::empty(),
        radius_eap_identities: Map::empty(),
        provisioning_plans: Map::empty(),
        provisioning_jobs: Map::empty(),
        provisioning_links: Map::empty(),
    }
}

impl Tx {
    /// A transaction on a store in which nothing is kept but its signing keys.
    pub fn new(now: u64, seed: &str, keys: Keys) -> (r: Tx)
        ensures
            r@ == empty_store(now, seed@, keys@),
    {
        let audit: Vec<Audit> = Vec::new();
        assert(views(audit@) =~= Seq::<AuditModel>::empty());
        Tx {
            now,
            seed: seed.to_owned(),
            drawn: 0,
            audit,
            issuer: None,
            revision: 0,
            keys,
            key_domains: Table::new(),
            users: Table::new(),
            usernames: Table::new(),
            groups: Table::new(),
            clients: Table::new(),
            sessions: Table::new(),
            session_tokens: Table::new(),
            browser_sessions: Table::new(),
            authentication: Table::new(),
            codes: Table::new(),
            devices: Table::new(),
            device_users: Table::new(),
            access: Table::new(),
            refresh: Table::new(),
            families: Table::new(),
            attempts: Table::new(),
            assertion_replays: Table::new(),
            rp_sessions: Table::new(),
            logout_deliveries: Table::new(),
            mtls_bindings: Table::new(),
            mtls_fingerprints: Table::new(),
            mtls_san_emails: Table::new(),
            mtls_san_uris: Table::new(),
            mtls_users: Table::new(),
            mtls_logins: Table::new(),
            proxy_pending: Table::new(),
            proxy_sessions: Table::new(),
            portal_requests: Table::new(),
            portal_codes: Table::new(),
            registrations: Table::new(),
            registration_tokens: Table::new(),
            passkeys: Table::new(),
            passkey_registration: Table::new(),
            passkey_authentication: Table::new(),
            access_requests: Table::new(),
            access_grants: Table::new(),
            password_history: Table::new(),
            account_proofs: Table::new(),
            account_latest: Table::new(),
            mail_limits: Table::new(),
            mail_deliveries: Table::new(),
            offboard_jobs: Table::new(),
            radius_requests: Table::new(),
            radius_certificates: Table::new(),
            radius_certificate_ids: Table::new(),
            radius_eap_identities: Table::new(),
            provisioning_plans: Table::new(),
            provisioning_jobs: Table::new(),
            provisioning_links: Table::new(),
        }
    }
}

} // verus!
