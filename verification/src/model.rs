//! The records that the provider keeps.
use crate::exchange::{ExchangeGrant, ExchangeGrantModel, ExchangePolicy, ExchangePolicyModel};
use crate::jose::{ClientAuthMethod, MachineTrust, MachineTrustModel, PublicJwks, PublicJwksModel, same_keys, same_trusts};
use crate::json::{Json, JsonModel};
use crate::names::Names;
use crate::outpost::Pending;
use crate::table::{Row, Table};
use vstd::prelude::*;
use vstd::string::*;

verus! {

/// A person or an administrator who signs in.
pub struct User {
    pub has_passkeys: bool,
    /// The parameters of the user's one-time codes, as they were configured.
    pub totp_settings: Json,
    /// What pairwise subjects derive from.
    pub pairwise_seed: String,
    pub id: String,
    pub username: String,
    pub email: Option<String>,
    pub display_name: String,
    pub password_hash: String,
    pub enabled: bool,
    pub admin: bool,
    pub epoch: u64,
    pub totp_secret: Option<String>,
    pub totp_pending: Option<TotpEnrollment>,
    pub totp_last_step: Option<u64>,
    pub created_at: u64,
    pub attributes: Table<Json>,
    pub email_verified: bool,
    pub subjects: Table<String>,
    /// The digests of the unused recovery codes.
    pub recovery_codes: Names,
}

/// What a [`User`] holds.
pub struct UserModel {
    pub has_passkeys: bool,
    pub totp_settings: JsonModel,
    pub pairwise_seed: Seq<char>,
    pub id: Seq<char>,
    pub username: Seq<char>,
    pub email: Option<Seq<char>>,
    pub display_name: Seq<char>,
    pub password_hash: Seq<char>,
    pub enabled: bool,
    pub admin: bool,
    pub epoch: u64,
    pub totp_secret: Option<Seq<char>>,
    pub totp_pending: Option<TotpEnrollmentModel>,
    pub totp_last_step: Option<u64>,
    pub created_at: u64,
    pub attributes: Map<Seq<char>, JsonModel>,
    pub email_verified: bool,
    pub subjects: Map<Seq<char>, Seq<char>>,
    pub recovery_codes: Set<Seq<char>>,
}

impl View for User {
    type V = UserModel;

    open spec fn view(&self) -> UserModel {
        UserModel {
            has_passkeys: self.has_passkeys,
            totp_settings: self.totp_settings@,
            pairwise_seed: self.pairwise_seed@,
            id: self.id@,
            username: self.username@,
            email: crate::text::opt_text(self.email),
            display_name: self.display_name@,
            password_hash: self.password_hash@,
            enabled: self.enabled,
            admin: self.admin,
            epoch: self.epoch,
            totp_secret: crate::text::opt_text(self.totp_secret),
            totp_pending: crate::table::opt_view(self.totp_pending),
            totp_last_step: self.totp_last_step,
            created_at: self.created_at,
            attributes: self.attributes@,
            email_verified: self.email_verified,
            subjects: self.subjects@,
            recovery_codes: self.recovery_codes@,
        }
    }
}

impl Row for User {
    fn dup(&self) -> (r: Self) {
        User {
            has_passkeys: self.has_passkeys,
            totp_settings: self.totp_settings.dup(),
            pairwise_seed: self.pairwise_seed.clone(),
            id: self.id.clone(),
            username: self.username.clone(),
            email: crate::text::copy_opt(&self.email),
            display_name: self.display_name.clone(),
            password_hash: self.password_hash.clone(),
            enabled: self.enabled,
            admin: self.admin,
            epoch: self.epoch,
            totp_secret: crate::text::copy_opt(&self.totp_secret),
            totp_pending: crate::table::dup_opt(&self.totp_pending),
            totp_last_step: self.totp_last_step,
            created_at: self.created_at,
            attributes: self.attributes.dup(),
            email_verified: self.email_verified,
            subjects: self.subjects.dup(),
            recovery_codes: self.recovery_codes.copy(),
        }
    }
}

/// A second factor whose enrollment was started.
pub struct TotpEnrollment {
    pub secret: String,
    pub expires_at: u64,
}

/// What a [`TotpEnrollment`] holds.
pub struct TotpEnrollmentModel {
    pub secret: Seq<char>,
    pub expires_at: u64,
}

impl View for TotpEnrollment {
    type V = TotpEnrollmentModel;

    open spec fn view(&self) -> TotpEnrollmentModel {
        TotpEnrollmentModel {
            secret: self.secret@,
            expires_at: self.expires_at,
        }
    }
}

impl Row for TotpEnrollment {
    fn dup(&self) -> (r: Self) {
        TotpEnrollment {
            secret: self.secret.clone(),
            expires_at: self.expires_at,
        }
    }
}

/// What of a user is shown.
pub struct UserView {
    pub id: String,
    pub username: String,
    pub email: Option<String>,
    pub display_name: String,
    pub enabled: bool,
    pub admin: bool,
    pub mfa_enabled: bool,
    pub created_at: u64,
    pub attributes: Table<Json>,
    pub email_verified: bool,
    pub subjects: Table<String>,
}

/// What a [`UserView`] holds.
pub struct UserViewModel {
    pub id: Seq<char>,
    pub username: Seq<char>,
    pub email: Option<Seq<char>>,
    pub display_name: Seq<char>,
    pub enabled: bool,
    pub admin: bool,
    pub mfa_enabled: bool,
    pub created_at: u64,
    pub attributes: Map<Seq<char>, JsonModel>,
    pub email_verified: bool,
    pub subjects: Map<Seq<char>, Seq<char>>,
}

impl View for UserView {
    type V = UserViewModel;

    open spec fn view(&self) -> UserViewModel {
        UserViewModel {
            id: self.id@,
            username: self.username@,
            email: crate::text::opt_text(self.email),
            display_name: self.display_name@,
            enabled: self.enabled,
            admin: self.admin,
            mfa_enabled: self.mfa_enabled,
            created_at: self.created_at,
            attributes: self.attributes@,
            email_verified: self.email_verified,
            subjects: self.subjects@,
        }
    }
}

impl Row for UserView {
    fn dup(&self) -> (r: Self) {
        UserView {
            id: self.id.clone(),
            username: self.username.clone(),
            email: crate::text::copy_opt(&self.email),
            display_name: self.display_name.clone(),
            enabled: self.enabled,
            admin: self.admin,
            mfa_enabled: self.mfa_enabled,
            created_at: self.created_at,
            attributes: self.attributes.dup(),
            email_verified: self.email_verified,
            subjects: self.subjects.dup(),
        }
    }
}

/// A named set of users, by id.
pub struct Group {
    pub name: String,
    pub members: Names,
}

/// What a [`Group`] holds.
pub struct GroupModel {
    pub name: Seq<char>,
    pub members: Set<Seq<char>>,
}

impl View for Group {
    type V = GroupModel;

    open spec fn view(&self) -> GroupModel {
        GroupModel {
            name: self.name@,
            members: self.members@,
        }
    }
}

impl Row for Group {
    fn dup(&self) -> (r: Self) {
        Group {
            name: self.name.clone(),
            members: self.members.copy(),
        }
    }
}

/// A registered encryption key, as it was written.
pub struct EncryptionKey {
    pub text: String,
}

/// What a [`EncryptionKey`] holds.
pub struct EncryptionKeyModel {
    pub text: Seq<char>,
}

impl View for EncryptionKey {
    type V = EncryptionKeyModel;

    open spec fn view(&self) -> EncryptionKeyModel {
        EncryptionKeyModel {
            text: self.text@,
        }
    }
}

impl Row for EncryptionKey {
    fn dup(&self) -> (r: Self) {
        EncryptionKey {
            text: self.text.clone(),
        }
    }
}

/// The end-user policy of a client; without rules it is the default one.
pub struct Policy {
    pub rules: Vec<String>,
}

/// What a [`Policy`] holds.
pub struct PolicyModel {
    pub rules: Seq<Seq<char>>,
}

impl View for Policy {
    type V = PolicyModel;

    open spec fn view(&self) -> PolicyModel {
        PolicyModel {
            rules: crate::text::texts(self.rules@),
        }
    }
}

impl Row for Policy {
    fn dup(&self) -> (r: Self) {
        Policy {
            rules: crate::text::copy_list(&self.rules),
        }
    }
}

/// What of a SAML registration the other rules read.
pub struct SamlSettings {
    pub idp_initiated: bool,
    /// The scopes that an assertion carries.
    pub scopes: Names,
}

/// What a [`SamlSettings`] holds.
pub struct SamlSettingsModel {
    pub idp_initiated: bool,
    pub scopes: Set<Seq<char>>,
}

impl View for SamlSettings {
    type V = SamlSettingsModel;

    open spec fn view(&self) -> SamlSettingsModel {
        SamlSettingsModel {
            idp_initiated: self.idp_initiated,
            scopes: self.scopes@,
        }
    }
}

impl Row for SamlSettings {
    fn dup(&self) -> (r: Self) {
        SamlSettings {
            idp_initiated: self.idp_initiated,
            scopes: self.scopes.copy(),
        }
    }
}

/// A registered application.
pub struct Client {
    pub id: String,
    pub name: String,
    pub secret_hash: Option<String>,
    pub redirect_uris: Vec<String>,
    pub scopes: Names,
    pub allowed_groups: Names,
    pub require_mfa: bool,
    pub enabled: bool,
    pub service: bool,
    pub settings: ProviderSettings,
}

/// What a [`Client`] holds.
pub struct ClientModel {
    pub id: Seq<char>,
    pub name: Seq<char>,
    pub secret_hash: Option<Seq<char>>,
    pub redirect_uris: Seq<Seq<char>>,
    pub scopes: Set<Seq<char>>,
    pub allowed_groups: Set<Seq<char>>,
    pub require_mfa: bool,
    pub enabled: bool,
    pub service: bool,
    pub settings: ProviderSettingsModel,
}

impl View for Client {
    type V = ClientModel;

    open spec fn view(&self) -> ClientModel {
        ClientModel {
            id: self.id@,
            name: self.name@,
            secret_hash: crate::text::opt_text(self.secret_hash),
            redirect_uris: crate::text::texts(self.redirect_uris@),
            scopes: self.scopes@,
            allowed_groups: self.allowed_groups@,
            require_mfa: self.require_mfa,
            enabled: self.enabled,
            service: self.service,
            settings: self.settings@,
        }
    }
}

impl Row for Client {
    fn dup(&self) -> (r: Self) {
        Client {
            id: self.id.clone(),
            name: self.name.clone(),
            secret_hash: crate::text::copy_opt(&self.secret_hash),
            redirect_uris: crate::text::copy_list(&self.redirect_uris),
            scopes: self.scopes.copy(),
            allowed_groups: self.allowed_groups.copy(),
            require_mfa: self.require_mfa,
            enabled: self.enabled,
            service: self.service,
            settings: self.settings.dup(),
        }
    }
}

/// How the provider serves a client.
pub struct ProviderSettings {
    /// User-facing application metadata. Access always inherits the client policies.
    pub app: Option<crate::portal::Settings>,
    pub saml: Option<SamlSettings>,
    pub radius: Option<crate::radius::Settings>,
    pub ldap: Option<crate::ldap_server::Settings>,
    pub proxy: Option<crate::outpost::Settings>,
    pub resources: Table<Names>,
    pub issuer: Option<String>,
    pub token_endpoint_auth_method: Option<ClientAuthMethod>,
    pub jwks: Option<PublicJwks>,
    pub machine_trust: Vec<MachineTrust>,
    pub exchange: Option<ExchangePolicy>,
    pub exchange_from: Names,
    pub signing_key: Option<String>,
    pub id_token_encryption: Option<EncryptionKey>,
    pub access_token_encryption: Option<EncryptionKey>,
    pub userinfo_encryption: Option<EncryptionKey>,
    pub userinfo_signed_response: bool,
    pub authorization_encryption: Option<EncryptionKey>,
    pub default_acr_values: Vec<String>,
    pub require_pushed_authorization_requests: bool,
    pub require_signed_request: bool,
    pub pairwise_sector: Option<String>,
    pub token_managers: Names,
    pub dpop_bound_access_tokens: bool,
    pub native: bool,
    pub allowed_grants: Names,
    pub access_token_ttl: Option<u64>,
    pub refresh_token_ttl: Option<u64>,
    pub code_ttl: Option<u64>,
    pub device_ttl: Option<u64>,
    pub origins: Names,
    pub post_logout_redirect_uris: Vec<String>,
    pub backchannel_logout_uri: Option<String>,
    pub frontchannel_logout_uri: Option<String>,
    pub claim_mappings: Vec<String>,
    pub groups_in_profile: bool,
    pub claims_in_access_token: bool,
    pub userinfo_only: bool,
    pub policy: Policy,
    /// Upstream source embedded in interactive authorization. Authentication is suspended until
    /// that source returns.
    pub source_stage: Option<String>,
    /// No user token without a fresh device-trust verification.
    pub require_device_trust: bool,
    /// First-party client: skip the browser consent screen.
    pub implicit_consent: bool,
}

/// What a [`ProviderSettings`] holds.
pub struct ProviderSettingsModel {
    pub app: Option<crate::portal::SettingsModel>,
    pub saml: Option<SamlSettingsModel>,
    pub radius: Option<crate::radius::SettingsModel>,
    pub ldap: Option<crate::ldap_server::SettingsModel>,
    pub proxy: Option<crate::outpost::SettingsModel>,
    pub resources: Map<Seq<char>, Set<Seq<char>>>,
    pub issuer: Option<Seq<char>>,
    pub token_endpoint_auth_method: Option<ClientAuthMethod>,
    pub jwks: Option<PublicJwksModel>,
    pub machine_trust: Seq<MachineTrustModel>,
    pub exchange: Option<ExchangePolicyModel>,
    pub exchange_from: Set<Seq<char>>,
    pub signing_key: Option<Seq<char>>,
    pub id_token_encryption: Option<EncryptionKeyModel>,
    pub access_token_encryption: Option<EncryptionKeyModel>,
    pub userinfo_encryption: Option<EncryptionKeyModel>,
    pub userinfo_signed_response: bool,
    pub authorization_encryption: Option<EncryptionKeyModel>,
    pub default_acr_values: Seq<Seq<char>>,
    pub require_pushed_authorization_requests: bool,
    pub require_signed_request: bool,
    pub pairwise_sector: Option<Seq<char>>,
    pub token_managers: Set<Seq<char>>,
    pub dpop_bound_access_tokens: bool,
    pub native: bool,
    pub allowed_grants: Set<Seq<char>>,
    pub access_token_ttl: Option<u64>,
    pub refresh_token_ttl: Option<u64>,
    pub code_ttl: Option<u64>,
    pub device_ttl: Option<u64>,
    pub origins: Set<Seq<char>>,
    pub post_logout_redirect_uris: Seq<Seq<char>>,
    pub backchannel_logout_uri: Option<Seq<char>>,
    pub frontchannel_logout_uri: Option<Seq<char>>,
    pub claim_mappings: Seq<Seq<char>>,
    pub groups_in_profile: bool,
    pub claims_in_access_token: bool,
    pub userinfo_only: bool,
    pub policy: PolicyModel,
    pub source_stage: Option<Seq<char>>,
    pub require_device_trust: bool,
    pub implicit_consent: bool,
}

impl View for ProviderSettings {
    type V = ProviderSettingsModel;

    open spec fn view(&self) -> ProviderSettingsModel {
        ProviderSettingsModel {
            app: crate::table::opt_view(self.app),
            saml: crate::table::opt_view(self.saml),
            radius: crate::table::opt_view(self.radius),
            ldap: crate::table::opt_view(self.ldap),
            proxy: crate::table::opt_view(self.proxy),
            resources: self.resources@,
            issuer: crate::text::opt_text(self.issuer),
            token_endpoint_auth_method: self.token_endpoint_auth_method,
            jwks: crate::table::opt_view(self.jwks),
            machine_trust: crate::table::views(self.machine_trust@),
            exchange: crate::table::opt_view(self.exchange),
            exchange_from: self.exchange_from@,
            signing_key: crate::text::opt_text(self.signing_key),
            id_token_encryption: crate::table::opt_view(self.id_token_encryption),
            access_token_encryption: crate::table::opt_view(self.access_token_encryption),
            userinfo_encryption: crate::table::opt_view(self.userinfo_encryption),
            userinfo_signed_response: self.userinfo_signed_response,
            authorization_encryption: crate::table::opt_view(self.authorization_encryption),
            default_acr_values: crate::text::texts(self.default_acr_values@),
            require_pushed_authorization_requests: self.require_pushed_authorization_requests,
            require_signed_request: self.require_signed_request,
            pairwise_sector: crate::text::opt_text(self.pairwise_sector),
            token_managers: self.token_managers@,
            dpop_bound_access_tokens: self.dpop_bound_access_tokens,
            native: self.native,
            allowed_grants: self.allowed_grants@,
            access_token_ttl: self.access_token_ttl,
            refresh_token_ttl: self.refresh_token_ttl,
            code_ttl: self.code_ttl,
            device_ttl: self.device_ttl,
            origins: self.origins@,
            post_logout_redirect_uris: crate::text::texts(self.post_logout_redirect_uris@),
            backchannel_logout_uri: crate::text::opt_text(self.backchannel_logout_uri),
            frontchannel_logout_uri: crate::text::opt_text(self.frontchannel_logout_uri),
            claim_mappings: crate::text::texts(self.claim_mappings@),
            groups_in_profile: self.groups_in_profile,
            claims_in_access_token: self.claims_in_access_token,
            userinfo_only: self.userinfo_only,
            policy: self.policy@,
            source_stage: crate::text::opt_text(self.source_stage),
            require_device_trust: self.require_device_trust,
            implicit_consent: self.implicit_consent,
        }
    }
}

impl Row for ProviderSettings {
    fn dup(&self) -> (r: Self) {
        ProviderSettings {
            app: crate::table::dup_opt(&self.app),
            saml: crate::table::dup_opt(&self.saml),
            radius: crate::table::dup_opt(&self.radius),
            ldap: crate::table::dup_opt(&self.ldap),
            proxy: crate::table::dup_opt(&self.proxy),
            resources: self.resources.dup(),
            issuer: crate::text::copy_opt(&self.issuer),
            token_endpoint_auth_method: self.token_endpoint_auth_method,
            jwks: crate::table::dup_opt(&self.jwks),
            machine_trust: crate::table::dup_list(&self.machine_trust),
            exchange: crate::table::dup_opt(&self.exchange),
            exchange_from: self.exchange_from.copy(),
            signing_key: crate::text::copy_opt(&self.signing_key),
            id_token_encryption: crate::table::dup_opt(&self.id_token_encryption),
            access_token_encryption: crate::table::dup_opt(&self.access_token_encryption),
            userinfo_encryption: crate::table::dup_opt(&self.userinfo_encryption),
            userinfo_signed_response: self.userinfo_signed_response,
            authorization_encryption: crate::table::dup_opt(&self.authorization_encryption),
            default_acr_values: crate::text::copy_list(&self.default_acr_values),
            require_pushed_authorization_requests: self.require_pushed_authorization_requests,
            require_signed_request: self.require_signed_request,
            pairwise_sector: crate::text::copy_opt(&self.pairwise_sector),
            token_managers: self.token_managers.copy(),
            dpop_bound_access_tokens: self.dpop_bound_access_tokens,
            native: self.native,
            allowed_grants: self.allowed_grants.copy(),
            access_token_ttl: self.access_token_ttl,
            refresh_token_ttl: self.refresh_token_ttl,
            code_ttl: self.code_ttl,
            device_ttl: self.device_ttl,
            origins: self.origins.copy(),
            post_logout_redirect_uris: crate::text::copy_list(&self.post_logout_redirect_uris),
            backchannel_logout_uri: crate::text::copy_opt(&self.backchannel_logout_uri),
            frontchannel_logout_uri: crate::text::copy_opt(&self.frontchannel_logout_uri),
            claim_mappings: crate::text::copy_list(&self.claim_mappings),
            groups_in_profile: self.groups_in_profile,
            claims_in_access_token: self.claims_in_access_token,
            userinfo_only: self.userinfo_only,
            policy: self.policy.dup(),
            source_stage: crate::text::copy_opt(&self.source_stage),
            require_device_trust: self.require_device_trust,
            implicit_consent: self.implicit_consent,
        }
    }
}

/// Who was authenticated, when and how.
pub struct Identity {
    pub amr: Vec<String>,
    pub source: Option<String>,
    pub user_id: String,
    pub epoch: u64,
    pub mfa: bool,
    pub auth_time: u64,
    pub session_id: String,
}

/// What a [`Identity`] holds.
pub struct IdentityModel {
    pub amr: Seq<Seq<char>>,
    pub source: Option<Seq<char>>,
    pub user_id: Seq<char>,
    pub epoch: u64,
    pub mfa: bool,
    pub auth_time: u64,
    pub session_id: Seq<char>,
}

impl View for Identity {
    type V = IdentityModel;

    open spec fn view(&self) -> IdentityModel {
        IdentityModel {
            amr: crate::text::texts(self.amr@),
            source: crate::text::opt_text(self.source),
            user_id: self.user_id@,
            epoch: self.epoch,
            mfa: self.mfa,
            auth_time: self.auth_time,
            session_id: self.session_id@,
        }
    }
}

impl Row for Identity {
    fn dup(&self) -> (r: Self) {
        Identity {
            amr: crate::text::copy_list(&self.amr),
            source: crate::text::copy_opt(&self.source),
            user_id: self.user_id.clone(),
            epoch: self.epoch,
            mfa: self.mfa,
            auth_time: self.auth_time,
            session_id: self.session_id.clone(),
        }
    }
}

/// A login session.
pub struct Session {
    pub id: String,
    pub token_hash: String,
    pub identity: Identity,
    pub expires_at: u64,
    pub revoked: bool,
}

/// What a [`Session`] holds.
pub struct SessionModel {
    pub id: Seq<char>,
    pub token_hash: Seq<char>,
    pub identity: IdentityModel,
    pub expires_at: u64,
    pub revoked: bool,
}

impl View for Session {
    type V = SessionModel;

    open spec fn view(&self) -> SessionModel {
        SessionModel {
            id: self.id@,
            token_hash: self.token_hash@,
            identity: self.identity@,
            expires_at: self.expires_at,
            revoked: self.revoked,
        }
    }
}

impl Row for Session {
    fn dup(&self) -> (r: Self) {
        Session {
            id: self.id.clone(),
            token_hash: self.token_hash.clone(),
            identity: self.identity.dup(),
            expires_at: self.expires_at,
            revoked: self.revoked,
        }
    }
}

/// An authorization code.
pub struct Code {
    pub resource: Option<String>,
    pub dpop_jkt: Option<String>,
    pub claims_request: Json,
    pub acr_values: Option<String>,
    pub client_id: String,
    pub identity: Identity,
    pub redirect_uri: String,
    pub challenge: String,
    pub scopes: Names,
    pub nonce: Option<String>,
    pub expires_at: u64,
    pub issued_family: Option<String>,
}

/// What a [`Code`] holds.
pub struct CodeModel {
    pub resource: Option<Seq<char>>,
    pub dpop_jkt: Option<Seq<char>>,
    pub claims_request: JsonModel,
    pub acr_values: Option<Seq<char>>,
    pub client_id: Seq<char>,
    pub identity: IdentityModel,
    pub redirect_uri: Seq<char>,
    pub challenge: Seq<char>,
    pub scopes: Set<Seq<char>>,
    pub nonce: Option<Seq<char>>,
    pub expires_at: u64,
    pub issued_family: Option<Seq<char>>,
}

impl View for Code {
    type V = CodeModel;

    open spec fn view(&self) -> CodeModel {
        CodeModel {
            resource: crate::text::opt_text(self.resource),
            dpop_jkt: crate::text::opt_text(self.dpop_jkt),
            claims_request: self.claims_request@,
            acr_values: crate::text::opt_text(self.acr_values),
            client_id: self.client_id@,
            identity: self.identity@,
            redirect_uri: self.redirect_uri@,
            challenge: self.challenge@,
            scopes: self.scopes@,
            nonce: crate::text::opt_text(self.nonce),
            expires_at: self.expires_at,
            issued_family: crate::text::opt_text(self.issued_family),
        }
    }
}

impl Row for Code {
    fn dup(&self) -> (r: Self) {
        Code {
            resource: crate::text::copy_opt(&self.resource),
            dpop_jkt: crate::text::copy_opt(&self.dpop_jkt),
            claims_request: self.claims_request.dup(),
            acr_values: crate::text::copy_opt(&self.acr_values),
            client_id: self.client_id.clone(),
            identity: self.identity.dup(),
            redirect_uri: self.redirect_uri.clone(),
            challenge: self.challenge.clone(),
            scopes: self.scopes.copy(),
            nonce: crate::text::copy_opt(&self.nonce),
            expires_at: self.expires_at,
            issued_family: crate::text::copy_opt(&self.issued_family),
        }
    }
}

/// A suspended authorization that waits for a login.
pub struct AuthenticationTransaction {
    pub request_hash: String,
    pub user_id: Option<String>,
    pub authenticated_session: Option<String>,
    pub expires_at: u64,
    /// Set when only the matching embedded source stage may complete this transaction.
    pub source_stage: Option<String>,
}

/// What a [`AuthenticationTransaction`] holds.
pub struct AuthenticationTransactionModel {
    pub request_hash: Seq<char>,
    pub user_id: Option<Seq<char>>,
    pub authenticated_session: Option<Seq<char>>,
    pub expires_at: u64,
    pub source_stage: Option<Seq<char>>,
}

impl View for AuthenticationTransaction {
    type V = AuthenticationTransactionModel;

    open spec fn view(&self) -> AuthenticationTransactionModel {
        AuthenticationTransactionModel {
            request_hash: self.request_hash@,
            user_id: crate::text::opt_text(self.user_id),
            authenticated_session: crate::text::opt_text(self.authenticated_session),
            expires_at: self.expires_at,
            source_stage: crate::text::opt_text(self.source_stage),
        }
    }
}

impl Row for AuthenticationTransaction {
    fn dup(&self) -> (r: Self) {
        AuthenticationTransaction {
            request_hash: self.request_hash.clone(),
            user_id: crate::text::copy_opt(&self.user_id),
            authenticated_session: crate::text::copy_opt(&self.authenticated_session),
            expires_at: self.expires_at,
            source_stage: crate::text::copy_opt(&self.source_stage),
        }
    }
}

/// The decision on a device authorization.
pub enum DeviceStatus {
    Pending,
    Approved(Identity),
    Denied,
}

/// What a [`DeviceStatus`] holds.
pub enum DeviceStatusModel {
    Pending,
    Approved(IdentityModel),
    Denied,
}

impl View for DeviceStatus {
    type V = DeviceStatusModel;

    open spec fn view(&self) -> DeviceStatusModel {
        match *self {
            DeviceStatus::Pending => DeviceStatusModel::Pending,
            DeviceStatus::Approved(i) => DeviceStatusModel::Approved(i@),
            DeviceStatus::Denied => DeviceStatusModel::Denied,
        }
    }
}

impl Row for DeviceStatus {
    fn dup(&self) -> (r: Self) {
        match self {
            DeviceStatus::Pending => DeviceStatus::Pending,
            DeviceStatus::Approved(i) => DeviceStatus::Approved(i.dup()),
            DeviceStatus::Denied => DeviceStatus::Denied,
        }
    }
}

/// A device authorization.
pub struct Device {
    pub resource: Option<String>,
    pub client_id: String,
    pub user_code_hash: String,
    pub scopes: Names,
    pub expires_at: u64,
    pub last_poll_at: Option<u64>,
    pub interval: u64,
    pub status: DeviceStatus,
}

/// What a [`Device`] holds.
pub struct DeviceModel {
    pub resource: Option<Seq<char>>,
    pub client_id: Seq<char>,
    pub user_code_hash: Seq<char>,
    pub scopes: Set<Seq<char>>,
    pub expires_at: u64,
    pub last_poll_at: Option<u64>,
    pub interval: u64,
    pub status: DeviceStatusModel,
}

impl View for Device {
    type V = DeviceModel;

    open spec fn view(&self) -> DeviceModel {
        DeviceModel {
            resource: crate::text::opt_text(self.resource),
            client_id: self.client_id@,
            user_code_hash: self.user_code_hash@,
            scopes: self.scopes@,
            expires_at: self.expires_at,
            last_poll_at: self.last_poll_at,
            interval: self.interval,
            status: self.status@,
        }
    }
}

impl Row for Device {
    fn dup(&self) -> (r: Self) {
        Device {
            resource: crate::text::copy_opt(&self.resource),
            client_id: self.client_id.clone(),
            user_code_hash: self.user_code_hash.clone(),
            scopes: self.scopes.copy(),
            expires_at: self.expires_at,
            last_poll_at: self.last_poll_at,
            interval: self.interval,
            status: self.status.dup(),
        }
    }
}

/// What an access or a refresh token stands for.
pub struct Grant {
    pub resource: Option<String>,
    pub confirmation_jkt: Option<String>,
    pub id_token_jkt: Option<String>,
    pub claims_request: Json,
    pub acr_values: Option<String>,
    pub machine_trust_hash: Option<String>,
    pub exchange: Option<ExchangeGrant>,
    pub client_id: String,
    pub identity: Option<Identity>,
    pub scopes: Names,
    pub nonce: Option<String>,
    pub family_id: String,
    pub issued_at: u64,
    pub expires_at: u64,
    pub used: bool,
}

/// What a [`Grant`] holds.
pub struct GrantModel {
    pub resource: Option<Seq<char>>,
    pub confirmation_jkt: Option<Seq<char>>,
    pub id_token_jkt: Option<Seq<char>>,
    pub claims_request: JsonModel,
    pub acr_values: Option<Seq<char>>,
    pub machine_trust_hash: Option<Seq<char>>,
    pub exchange: Option<ExchangeGrantModel>,
    pub client_id: Seq<char>,
    pub identity: Option<IdentityModel>,
    pub scopes: Set<Seq<char>>,
    pub nonce: Option<Seq<char>>,
    pub family_id: Seq<char>,
    pub issued_at: u64,
    pub expires_at: u64,
    pub used: bool,
}

impl View for Grant {
    type V = GrantModel;

    open spec fn view(&self) -> GrantModel {
        GrantModel {
            resource: crate::text::opt_text(self.resource),
            confirmation_jkt: crate::text::opt_text(self.confirmation_jkt),
            id_token_jkt: crate::text::opt_text(self.id_token_jkt),
            claims_request: self.claims_request@,
            acr_values: crate::text::opt_text(self.acr_values),
            machine_trust_hash: crate::text::opt_text(self.machine_trust_hash),
            exchange: crate::table::opt_view(self.exchange),
            client_id: self.client_id@,
            identity: crate::table::opt_view(self.identity),
            scopes: self.scopes@,
            nonce: crate::text::opt_text(self.nonce),
            family_id: self.family_id@,
            issued_at: self.issued_at,
            expires_at: self.expires_at,
            used: self.used,
        }
    }
}

impl Row for Grant {
    fn dup(&self) -> (r: Self) {
        Grant {
            resource: crate::text::copy_opt(&self.resource),
            confirmation_jkt: crate::text::copy_opt(&self.confirmation_jkt),
            id_token_jkt: crate::text::copy_opt(&self.id_token_jkt),
            claims_request: self.claims_request.dup(),
            acr_values: crate::text::copy_opt(&self.acr_values),
            machine_trust_hash: crate::text::copy_opt(&self.machine_trust_hash),
            exchange: crate::table::dup_opt(&self.exchange),
            client_id: self.client_id.clone(),
            identity: crate::table::dup_opt(&self.identity),
            scopes: self.scopes.copy(),
            nonce: crate::text::copy_opt(&self.nonce),
            family_id: self.family_id.clone(),
            issued_at: self.issued_at,
            expires_at: self.expires_at,
            used: self.used,
        }
    }
}

/// The tokens that descend from one login; they are revoked together.
pub struct Family {
    pub expires_at: u64,
    pub revoked: bool,
}

/// What a [`Family`] holds.
pub struct FamilyModel {
    pub expires_at: u64,
    pub revoked: bool,
}

impl View for Family {
    type V = FamilyModel;

    open spec fn view(&self) -> FamilyModel {
        FamilyModel {
            expires_at: self.expires_at,
            revoked: self.revoked,
        }
    }
}

impl Row for Family {
    fn dup(&self) -> (r: Self) {
        Family {
            expires_at: self.expires_at,
            revoked: self.revoked,
        }
    }
}

/// Failed logins of an account.
pub struct Attempts {
    pub failures: u32,
    pub window_start: u64,
    pub locked_until: u64,
}

/// What a [`Attempts`] holds.
pub struct AttemptsModel {
    pub failures: u32,
    pub window_start: u64,
    pub locked_until: u64,
}

impl View for Attempts {
    type V = AttemptsModel;

    open spec fn view(&self) -> AttemptsModel {
        AttemptsModel {
            failures: self.failures,
            window_start: self.window_start,
            locked_until: self.locked_until,
        }
    }
}

impl Row for Attempts {
    fn dup(&self) -> (r: Self) {
        Attempts {
            failures: self.failures,
            window_start: self.window_start,
            locked_until: self.locked_until,
        }
    }
}

/// An entry of the audit trail.
pub struct Audit {
    pub actor: String,
    pub action: String,
    pub target: String,
}

/// What a [`Audit`] holds.
pub struct AuditModel {
    pub actor: Seq<char>,
    pub action: Seq<char>,
    pub target: Seq<char>,
}

impl View for Audit {
    type V = AuditModel;

    open spec fn view(&self) -> AuditModel {
        AuditModel {
            actor: self.actor@,
            action: self.action@,
            target: self.target@,
        }
    }
}

impl Row for Audit {
    fn dup(&self) -> (r: Self) {
        Audit {
            actor: self.actor.clone(),
            action: self.action.clone(),
            target: self.target.clone(),
        }
    }
}

/// A request to create a user.
pub struct NewUser {
    pub username: String,
    pub password: String,
    pub email: Option<String>,
    pub display_name: String,
    pub admin: bool,
}

/// What a [`NewUser`] holds.
pub struct NewUserModel {
    pub username: Seq<char>,
    pub password: Seq<char>,
    pub email: Option<Seq<char>>,
    pub display_name: Seq<char>,
    pub admin: bool,
}

impl View for NewUser {
    type V = NewUserModel;

    open spec fn view(&self) -> NewUserModel {
        NewUserModel {
            username: self.username@,
            password: self.password@,
            email: crate::text::opt_text(self.email),
            display_name: self.display_name@,
            admin: self.admin,
        }
    }
}

impl Row for NewUser {
    fn dup(&self) -> (r: Self) {
        NewUser {
            username: self.username.clone(),
            password: self.password.clone(),
            email: crate::text::copy_opt(&self.email),
            display_name: self.display_name.clone(),
            admin: self.admin,
        }
    }
}

/// A request to register a client.
pub struct NewClient {
    pub client_id: String,
    pub name: String,
    pub confidential: bool,
    pub redirect_uris: Vec<String>,
    pub scopes: Names,
    pub allowed_groups: Names,
    pub require_mfa: bool,
    pub service: bool,
    pub settings: ProviderSettings,
}

/// What a [`NewClient`] holds.
pub struct NewClientModel {
    pub client_id: Seq<char>,
    pub name: Seq<char>,
    pub confidential: bool,
    pub redirect_uris: Seq<Seq<char>>,
    pub scopes: Set<Seq<char>>,
    pub allowed_groups: Set<Seq<char>>,
    pub require_mfa: bool,
    pub service: bool,
    pub settings: ProviderSettingsModel,
}

impl View for NewClient {
    type V = NewClientModel;

    open spec fn view(&self) -> NewClientModel {
        NewClientModel {
            client_id: self.client_id@,
            name: self.name@,
            confidential: self.confidential,
            redirect_uris: crate::text::texts(self.redirect_uris@),
            scopes: self.scopes@,
            allowed_groups: self.allowed_groups@,
            require_mfa: self.require_mfa,
            service: self.service,
            settings: self.settings@,
        }
    }
}

impl Row for NewClient {
    fn dup(&self) -> (r: Self) {
        NewClient {
            client_id: self.client_id.clone(),
            name: self.name.clone(),
            confidential: self.confidential,
            redirect_uris: crate::text::copy_list(&self.redirect_uris),
            scopes: self.scopes.copy(),
            allowed_groups: self.allowed_groups.copy(),
            require_mfa: self.require_mfa,
            service: self.service,
            settings: self.settings.dup(),
        }
    }
}

/// Changes to a user.
pub struct UserPatch {
    pub enabled: Option<bool>,
    pub admin: Option<bool>,
    pub password: Option<String>,
    pub email: Option<String>,
    pub display_name: Option<String>,
    pub reset_mfa: bool,
    pub revoke_sessions: bool,
    pub attributes: Option<Table<Json>>,
    pub email_verified: Option<bool>,
    pub subjects: Option<Table<String>>,
}

/// Changes to a client.
pub struct ClientPatch {
    pub name: Option<String>,
    pub enabled: Option<bool>,
    pub allowed_groups: Option<Names>,
    pub require_mfa: Option<bool>,
    pub redirect_uris: Option<Vec<String>>,
    pub scopes: Option<Names>,
    pub settings: Option<ProviderSettings>,
}

/// What is shown of a user.
pub open spec fn user_view(u: UserModel) -> UserViewModel {
    UserViewModel {
        id: u.id,
        username: u.username,
        email: u.email,
        display_name: u.display_name,
        enabled: u.enabled,
        admin: u.admin,
        mfa_enabled: u.totp_secret is Some || u.has_passkeys,
        created_at: u.created_at,
        attributes: u.attributes,
        email_verified: u.email_verified,
        subjects: u.subjects,
    }
}

impl User {
    /// What is shown of this user.
    pub fn shown(&self) -> (r: UserView)
        ensures
            r@ == user_view(self@),
    {
        UserView {
            id: self.id.clone(),
            username: self.username.clone(),
            email: crate::text::copy_opt(&self.email),
            display_name: self.display_name.clone(),
            enabled: self.enabled,
            admin: self.admin,
            mfa_enabled: self.totp_secret.is_some() || self.has_passkeys,
            created_at: self.created_at,
            attributes: self.attributes.dup(),
            email_verified: self.email_verified,
            subjects: self.subjects.dup(),
        }
    }
}

/// The client proves who it is: with a shared secret or with a signature.
pub open spec fn is_confidential(c: ClientModel) -> bool {
    c.secret_hash is Some || c.settings.token_endpoint_auth_method == Some(
        ClientAuthMethod::PrivateKeyJwt,
    )
}

impl Client {
    pub fn confidential(&self) -> (r: bool)
        ensures
            r == is_confidential(self@),
    {
        if self.secret_hash.is_some() {
            return true;
        }
        match self.settings.token_endpoint_auth_method {
            Some(m) => m == ClientAuthMethod::PrivateKeyJwt,
            None => false,
        }
    }
}

/// How an identity was authenticated; what was recorded before methods were kept follows from
/// whether a second factor was used.
pub open spec fn methods_of(i: IdentityModel) -> Seq<Seq<char>> {
    if i.amr.len() > 0 {
        i.amr
    } else if i.mfa {
        seq!["pwd"@, "otp"@]
    } else {
        seq!["pwd"@]
    }
}

impl Identity {
    pub fn authentication_methods(&self) -> (r: Vec<String>)
        ensures
            crate::text::texts(r@) == methods_of(self@),
    {
        if self.amr.len() > 0 {
            return crate::text::copy_list(&self.amr);
        }
        let mut v: Vec<String> = Vec::new();
        v.push("pwd".to_owned());
        if self.mfa {
            v.push("otp".to_owned());
        }
        assert(crate::text::texts(v@) =~= methods_of(self@));
        v
    }
}

/// Two clients authenticate by different keys, methods or trusted workloads.
pub open spec fn credentials_differ(a: ProviderSettingsModel, b: ProviderSettingsModel) -> bool {
    a.jwks != b.jwks || a.token_endpoint_auth_method != b.token_endpoint_auth_method || a.machine_trust
        != b.machine_trust
}

impl ProviderSettings {
    /// Whether a client with the other settings authenticates by other credentials.
    pub fn authentication_credentials_differ(&self, other: &ProviderSettings) -> (r: bool)
        ensures
            r == credentials_differ(self@, other@),
    {
        let keys = match (&self.jwks, &other.jwks) {
            (Some(a), Some(b)) => same_keys(a, b),
            (None, None) => true,
            _ => false,
        };
        let method = match (self.token_endpoint_auth_method, other.token_endpoint_auth_method) {
            (Some(a), Some(b)) => a == b,
            (None, None) => true,
            _ => false,
        };
        !keys || !method || !same_trusts(&self.machine_trust, &other.machine_trust)
    }
}

/// The settings of a client for which nothing was set.
pub open spec fn plain_settings() -> ProviderSettingsModel {
    ProviderSettingsModel {
        app: None,
        saml: None,
        radius: None,
        ldap: None,
        proxy: None,
        resources: Map::empty(),
        issuer: None,
        token_endpoint_auth_method: None,
        jwks: None,
        machine_trust: Seq::empty(),
        exchange: None,
        exchange_from: Set::empty(),
        signing_key: None,
        id_token_encryption: None,
        access_token_encryption: None,
        userinfo_encryption: None,
        userinfo_signed_response: false,
        authorization_encryption: None,
        default_acr_values: Seq::empty(),
        require_pushed_authorization_requests: false,
        require_signed_request: false,
        pairwise_sector: None,
        token_managers: Set::empty(),
        dpop_bound_access_tokens: false,
        native: false,
        allowed_grants: Set::empty(),
        access_token_ttl: None,
        refresh_token_ttl: None,
        code_ttl: None,
        device_ttl: None,
        origins: Set::empty(),
        post_logout_redirect_uris: Seq::empty(),
        backchannel_logout_uri: None,
        frontchannel_logout_uri: None,
        claim_mappings: Seq::empty(),
        groups_in_profile: false,
        claims_in_access_token: false,
        userinfo_only: false,
        policy: PolicyModel { rules: Seq::empty() },
        source_stage: None,
        require_device_trust: false,
        implicit_consent: false,
    }
}

impl ProviderSettings {
    /// Settings in which nothing is set.
    pub fn plain() -> (r: ProviderSettings)
        ensures
            r@ == plain_settings(),
    {
        let r = ProviderSettings {
            app: None,
            saml: None,
            radius: None,
            ldap: None,
            proxy: None,
            resources: Table::new(),
            issuer: None,
            token_endpoint_auth_method: None,
            jwks: None,
            machine_trust: Vec::new(),
            exchange: None,
            exchange_from: Names::new(),
            signing_key: None,
            id_token_encryption: None,
            access_token_encryption: None,
            userinfo_encryption: None,
            userinfo_signed_response: false,
            authorization_encryption: None,
            default_acr_values: Vec::new(),
            require_pushed_authorization_requests: false,
            require_signed_request: false,
            pairwise_sector: None,
            token_managers: Names::new(),
            dpop_bound_access_tokens: false,
            native: false,
            allowed_grants: Names::new(),
            access_token_ttl: None,
            refresh_token_ttl: None,
            code_ttl: None,
            device_ttl: None,
            origins: Names::new(),
            post_logout_redirect_uris: Vec::new(),
            backchannel_logout_uri: None,
            frontchannel_logout_uri: None,
            claim_mappings: Vec::new(),
            groups_in_profile: false,
            claims_in_access_token: false,
            userinfo_only: false,
            policy: Policy { rules: Vec::new() },
            source_stage: None,
            require_device_trust: false,
            implicit_consent: false,
        };
        proof {
            assert(r@.machine_trust =~= plain_settings().machine_trust);
            assert(r@.default_acr_values =~= plain_settings().default_acr_values);
            assert(r@.post_logout_redirect_uris =~= plain_settings().post_logout_redirect_uris);
            assert(r@.claim_mappings =~= plain_settings().claim_mappings);
            assert(r@.policy.rules =~= Seq::<Seq<char>>::empty());
        }
        r
    }
}

/// What is shown of a user is theirs, and whether a second factor protects them.
pub proof fn users_are_shown_as_they_are(u: UserModel)
    ensures
        ({
            let v = user_view(u);
            &&& v.id == u.id && v.username == u.username
            &&& v.email == u.email && v.email_verified == u.email_verified
            &&& v.display_name == u.display_name
            &&& v.enabled == u.enabled && v.admin == u.admin
            &&& v.created_at == u.created_at
            &&& v.attributes == u.attributes && v.subjects == u.subjects
            &&& !v.mfa_enabled <==> u.totp_secret is None && !u.has_passkeys
        }),
{
}

/// A client keeps a secret of its own or signs with a key; one with neither is public.
pub proof fn public_clients_have_no_credential(c: ClientModel)
    ensures
        !is_confidential(c) <==> c.secret_hash is None && c.settings.token_endpoint_auth_method != Some(
            ClientAuthMethod::PrivateKeyJwt,
        ),
{
}

/// A login names the ways in which it was made; where none were kept, it was made with a password, and
/// with a code if there was a second factor.
pub proof fn logins_name_their_methods(i: IdentityModel)
    ensures
        methods_of(i).len() > 0,
        i.amr.len() > 0 ==> methods_of(i) == i.amr,
        i.amr.len() == 0 ==> methods_of(i)[0] == "pwd"@ && (methods_of(i).contains("otp"@) <==> i.mfa),
{
    reveal_strlit("pwd");
    reveal_strlit("otp");
    assert("pwd"@[0] != "otp"@[0]);
    if i.amr.len() == 0 && i.mfa {
        assert(methods_of(i)[1] == "otp"@);
    }
}

/// A change of a client's keys, of how it authenticates, or of what it trusts is a change of its
/// credentials.
pub proof fn credentials_are_keys_methods_and_trusts(a: ProviderSettingsModel, b: ProviderSettingsModel)
    ensures
        !credentials_differ(a, b) <==> a.jwks == b.jwks && a.token_endpoint_auth_method
            == b.token_endpoint_auth_method && a.machine_trust == b.machine_trust,
        !credentials_differ(a, a),
        credentials_differ(a, b) == credentials_differ(b, a),
{
}

} // verus!
