//! Offline conversion of another provider's export. Exported policy code is never run.
pub mod clients;
pub mod groups;
pub mod users;

use crate::error::{Error, Failure, agrees_with, fails};
use crate::json::{Json, JsonModel, items_of, lemma_items_of, text_of};
use crate::model::{ProviderSettings, ProviderSettingsModel};
use crate::names::Names;
use crate::rules::{Rules, RulesModel};
use crate::table::{Row, Table};
use crate::text::{concat, decimal, decimal_text, first_at, number_in, opt_text, parse_number, parts, same, split, split_once, texts};
use vstd::prelude::*;
use vstd::string::*;

verus! {

/// Where a credential is kept, and which version of it is meant.
pub struct PasswordReference {
    pub reference: String,
    pub version: String,
    pub hashed: bool,
}

/// What a [`PasswordReference`] holds.
pub struct PasswordReferenceModel {
    pub reference: Seq<char>,
    pub version: Seq<char>,
    pub hashed: bool,
}

impl View for PasswordReference {
    type V = PasswordReferenceModel;

    open spec fn view(&self) -> PasswordReferenceModel {
        PasswordReferenceModel {
            reference: self.reference@,
            version: self.version@,
            hashed: self.hashed,
        }
    }
}

impl Row for PasswordReference {
    fn dup(&self) -> (r: Self) {
        PasswordReference {
            reference: self.reference.clone(),
            version: self.version.clone(),
            hashed: self.hashed,
        }
    }
}

/// The reviewed replacement of an exported client's policies and mappings.
pub struct ClientResolution {
    pub federation_reviewed: bool,
    /// The issuer of the provider's discovery document.
    pub issuer: String,
    pub scopes: Names,
    pub settings: ProviderSettings,
    pub translated_mapping_ids: Names,
    pub translated_binding_ids: Names,
    pub authentication_flow_reviewed: bool,
    pub require_mfa: bool,
    pub secret_ref: Option<String>,
    pub secret_version: Option<String>,
}

/// What a [`ClientResolution`] holds.
pub struct ClientResolutionModel {
    pub federation_reviewed: bool,
    pub issuer: Seq<char>,
    pub scopes: Set<Seq<char>>,
    pub settings: ProviderSettingsModel,
    pub translated_mapping_ids: Set<Seq<char>>,
    pub translated_binding_ids: Set<Seq<char>>,
    pub authentication_flow_reviewed: bool,
    pub require_mfa: bool,
    pub secret_ref: Option<Seq<char>>,
    pub secret_version: Option<Seq<char>>,
}

impl View for ClientResolution {
    type V = ClientResolutionModel;

    open spec fn view(&self) -> ClientResolutionModel {
        ClientResolutionModel {
            federation_reviewed: self.federation_reviewed,
            issuer: self.issuer@,
            scopes: self.scopes@,
            settings: self.settings@,
            translated_mapping_ids: self.translated_mapping_ids@,
            translated_binding_ids: self.translated_binding_ids@,
            authentication_flow_reviewed: self.authentication_flow_reviewed,
            require_mfa: self.require_mfa,
            secret_ref: crate::text::opt_text(self.secret_ref),
            secret_version: crate::text::opt_text(self.secret_version),
        }
    }
}

impl Row for ClientResolution {
    fn dup(&self) -> (r: Self) {
        ClientResolution {
            federation_reviewed: self.federation_reviewed,
            issuer: self.issuer.clone(),
            scopes: self.scopes.copy(),
            settings: self.settings.dup(),
            translated_mapping_ids: self.translated_mapping_ids.copy(),
            translated_binding_ids: self.translated_binding_ids.copy(),
            authentication_flow_reviewed: self.authentication_flow_reviewed,
            require_mfa: self.require_mfa,
            secret_ref: crate::text::copy_opt(&self.secret_ref),
            secret_version: crate::text::copy_opt(&self.secret_version),
        }
    }
}

/// The link of a user to an upstream source.
pub struct SourceLink {
    pub username: String,
    pub link: Json,
}

/// What a [`SourceLink`] holds.
pub struct SourceLinkModel {
    pub username: Seq<char>,
    pub link: JsonModel,
}

impl View for SourceLink {
    type V = SourceLinkModel;

    open spec fn view(&self) -> SourceLinkModel {
        SourceLinkModel {
            username: self.username@,
            link: self.link@,
        }
    }
}

impl Row for SourceLink {
    fn dup(&self) -> (r: Self) {
        SourceLink {
            username: self.username.clone(),
            link: self.link.dup(),
        }
    }
}

/// An export, and how its open questions were resolved.
pub struct Import {
    pub source_links: Vec<SourceLink>,
    pub totp: Table<PasswordReference>,
    pub source_resolutions: Table<Json>,
    pub api_version: String,
    pub issuer: String,
    pub users: Json,
    pub groups: Json,
    pub providers: Json,
    pub applications: Json,
    pub policy_bindings: Json,
    pub sources: Json,
    pub passwords: Table<PasswordReference>,
    pub clients: Table<ClientResolution>,
}

/// What a [`Import`] holds.
pub struct ImportModel {
    pub source_links: Seq<SourceLinkModel>,
    pub totp: Map<Seq<char>, PasswordReferenceModel>,
    pub source_resolutions: Map<Seq<char>, JsonModel>,
    pub api_version: Seq<char>,
    pub issuer: Seq<char>,
    pub users: JsonModel,
    pub groups: JsonModel,
    pub providers: JsonModel,
    pub applications: JsonModel,
    pub policy_bindings: JsonModel,
    pub sources: JsonModel,
    pub passwords: Map<Seq<char>, PasswordReferenceModel>,
    pub clients: Map<Seq<char>, ClientResolutionModel>,
}

impl View for Import {
    type V = ImportModel;

    open spec fn view(&self) -> ImportModel {
        ImportModel {
            source_links: crate::table::views(self.source_links@),
            totp: self.totp@,
            source_resolutions: self.source_resolutions@,
            api_version: self.api_version@,
            issuer: self.issuer@,
            users: self.users@,
            groups: self.groups@,
            providers: self.providers@,
            applications: self.applications@,
            policy_bindings: self.policy_bindings@,
            sources: self.sources@,
            passwords: self.passwords@,
            clients: self.clients@,
        }
    }
}

impl Row for Import {
    fn dup(&self) -> (r: Self) {
        Import {
            source_links: crate::table::dup_list(&self.source_links),
            totp: self.totp.dup(),
            source_resolutions: self.source_resolutions.dup(),
            api_version: self.api_version.clone(),
            issuer: self.issuer.clone(),
            users: self.users.dup(),
            groups: self.groups.dup(),
            providers: self.providers.dup(),
            applications: self.applications.dup(),
            policy_bindings: self.policy_bindings.dup(),
            sources: self.sources.dup(),
            passwords: self.passwords.dup(),
            clients: self.clients.dup(),
        }
    }
}

/// A group to create.
pub struct GroupSpec {
    pub name: String,
    pub members: Names,
}

/// What a [`GroupSpec`] holds.
pub struct GroupSpecModel {
    pub name: Seq<char>,
    pub members: Set<Seq<char>>,
}

impl View for GroupSpec {
    type V = GroupSpecModel;

    open spec fn view(&self) -> GroupSpecModel {
        GroupSpecModel {
            name: self.name@,
            members: self.members@,
        }
    }
}

impl Row for GroupSpec {
    fn dup(&self) -> (r: Self) {
        GroupSpec {
            name: self.name.clone(),
            members: self.members.copy(),
        }
    }
}

/// A client to create.
pub struct ClientSpec {
    pub client_id: String,
    pub name: String,
    pub confidential: bool,
    pub service: bool,
    pub enabled: bool,
    pub redirect_uris: Vec<String>,
    pub scopes: Names,
    pub allowed_groups: Names,
    pub require_mfa: bool,
    pub settings: ProviderSettings,
    pub secret_ref: Option<String>,
    pub secret_version: Option<String>,
}

/// What a [`ClientSpec`] holds.
pub struct ClientSpecModel {
    pub client_id: Seq<char>,
    pub name: Seq<char>,
    pub confidential: bool,
    pub service: bool,
    pub enabled: bool,
    pub redirect_uris: Seq<Seq<char>>,
    pub scopes: Set<Seq<char>>,
    pub allowed_groups: Set<Seq<char>>,
    pub require_mfa: bool,
    pub settings: ProviderSettingsModel,
    pub secret_ref: Option<Seq<char>>,
    pub secret_version: Option<Seq<char>>,
}

impl View for ClientSpec {
    type V = ClientSpecModel;

    open spec fn view(&self) -> ClientSpecModel {
        ClientSpecModel {
            client_id: self.client_id@,
            name: self.name@,
            confidential: self.confidential,
            service: self.service,
            enabled: self.enabled,
            redirect_uris: crate::text::texts(self.redirect_uris@),
            scopes: self.scopes@,
            allowed_groups: self.allowed_groups@,
            require_mfa: self.require_mfa,
            settings: self.settings@,
            secret_ref: crate::text::opt_text(self.secret_ref),
            secret_version: crate::text::opt_text(self.secret_version),
        }
    }
}

impl Row for ClientSpec {
    fn dup(&self) -> (r: Self) {
        ClientSpec {
            client_id: self.client_id.clone(),
            name: self.name.clone(),
            confidential: self.confidential,
            service: self.service,
            enabled: self.enabled,
            redirect_uris: crate::text::copy_list(&self.redirect_uris),
            scopes: self.scopes.copy(),
            allowed_groups: self.allowed_groups.copy(),
            require_mfa: self.require_mfa,
            settings: self.settings.dup(),
            secret_ref: crate::text::copy_opt(&self.secret_ref),
            secret_version: crate::text::copy_opt(&self.secret_version),
        }
    }
}

/// A user to create.
pub struct UserSpec {
    pub password_disabled: bool,
    pub totp_ref: Option<String>,
    pub totp_version: Option<String>,
    pub id: String,
    pub username: String,
    pub display_name: String,
    pub email: Option<String>,
    pub email_verified: bool,
    pub enabled: bool,
    pub admin: bool,
    pub attributes: Json,
    pub subjects: Table<String>,
    pub password_ref: Option<String>,
    pub password_hash_ref: Option<String>,
    pub password_version: Option<String>,
}

/// What a [`UserSpec`] holds.
pub struct UserSpecModel {
    pub password_disabled: bool,
    pub totp_ref: Option<Seq<char>>,
    pub totp_version: Option<Seq<char>>,
    pub id: Seq<char>,
    pub username: Seq<char>,
    pub display_name: Seq<char>,
    pub email: Option<Seq<char>>,
    pub email_verified: bool,
    pub enabled: bool,
    pub admin: bool,
    pub attributes: JsonModel,
    pub subjects: Map<Seq<char>, Seq<char>>,
    pub password_ref: Option<Seq<char>>,
    pub password_hash_ref: Option<Seq<char>>,
    pub password_version: Option<Seq<char>>,
}

impl View for UserSpec {
    type V = UserSpecModel;

    open spec fn view(&self) -> UserSpecModel {
        UserSpecModel {
            password_disabled: self.password_disabled,
            totp_ref: crate::text::opt_text(self.totp_ref),
            totp_version: crate::text::opt_text(self.totp_version),
            id: self.id@,
            username: self.username@,
            display_name: self.display_name@,
            email: crate::text::opt_text(self.email),
            email_verified: self.email_verified,
            enabled: self.enabled,
            admin: self.admin,
            attributes: self.attributes@,
            subjects: self.subjects@,
            password_ref: crate::text::opt_text(self.password_ref),
            password_hash_ref: crate::text::opt_text(self.password_hash_ref),
            password_version: crate::text::opt_text(self.password_version),
        }
    }
}

impl Row for UserSpec {
    fn dup(&self) -> (r: Self) {
        UserSpec {
            password_disabled: self.password_disabled,
            totp_ref: crate::text::copy_opt(&self.totp_ref),
            totp_version: crate::text::copy_opt(&self.totp_version),
            id: self.id.clone(),
            username: self.username.clone(),
            display_name: self.display_name.clone(),
            email: crate::text::copy_opt(&self.email),
            email_verified: self.email_verified,
            enabled: self.enabled,
            admin: self.admin,
            attributes: self.attributes.dup(),
            subjects: self.subjects.dup(),
            password_ref: crate::text::copy_opt(&self.password_ref),
            password_hash_ref: crate::text::copy_opt(&self.password_hash_ref),
            password_version: crate::text::copy_opt(&self.password_version),
        }
    }
}

/// What an import would create, and what stands in its way.
pub struct Manifest {
    pub source_links: Vec<SourceLink>,
    pub sources: Vec<Json>,
    pub groups: Vec<GroupSpec>,
    pub clients: Vec<ClientSpec>,
    pub users: Vec<UserSpec>,
    pub blockers: Names,
}

/// What a [`Manifest`] holds.
pub struct ManifestModel {
    pub source_links: Seq<SourceLinkModel>,
    pub sources: Seq<JsonModel>,
    pub groups: Seq<GroupSpecModel>,
    pub clients: Seq<ClientSpecModel>,
    pub users: Seq<UserSpecModel>,
    pub blockers: Set<Seq<char>>,
}

impl View for Manifest {
    type V = ManifestModel;

    open spec fn view(&self) -> ManifestModel {
        ManifestModel {
            source_links: crate::table::views(self.source_links@),
            sources: crate::table::views(self.sources@),
            groups: crate::table::views(self.groups@),
            clients: crate::table::views(self.clients@),
            users: crate::table::views(self.users@),
            blockers: self.blockers@,
        }
    }
}

impl Row for Manifest {
    fn dup(&self) -> (r: Self) {
        Manifest {
            source_links: crate::table::dup_list(&self.source_links),
            sources: crate::table::dup_list(&self.sources),
            groups: crate::table::dup_list(&self.groups),
            clients: crate::table::dup_list(&self.clients),
            users: crate::table::dup_list(&self.users),
            blockers: self.blockers.copy(),
        }
    }
}

/// The verdicts of rules outside the library that a conversion meets.
pub struct Reviews {
    /// On the issuers.
    pub rules: Rules,
    /// On each client's settings.
    pub clients: Table<Rules>,
    /// On each client's claim mappings: why they are refused.
    pub mappings: Table<String>,
    /// What the rules outside the library say when they refuse, by the name or rule.
    pub messages: Table<String>,
    /// The sources that are refused.
    pub sources: Names,
}

/// What a [`Reviews`] holds.
pub struct ReviewsModel {
    pub rules: RulesModel,
    pub clients: Map<Seq<char>, RulesModel>,
    pub mappings: Map<Seq<char>, Seq<char>>,
    pub messages: Map<Seq<char>, Seq<char>>,
    pub sources: Set<Seq<char>>,
}

impl View for Reviews {
    type V = ReviewsModel;

    open spec fn view(&self) -> ReviewsModel {
        ReviewsModel {
            rules: self.rules@,
            clients: self.clients@,
            mappings: self.mappings@,
            messages: self.messages@,
            sources: self.sources@,
        }
    }
}

impl Row for Reviews {
    fn dup(&self) -> (r: Self) {
        Reviews {
            rules: self.rules.dup(),
            clients: self.clients.dup(),
            mappings: self.mappings.dup(),
            messages: self.messages.dup(),
            sources: self.sources.copy(),
        }
    }
}

/// The rows of an export: an array, or a single complete page.
pub open spec fn rows_of(v: JsonModel) -> Result<Seq<JsonModel>, Failure> {
    match v {
        JsonModel::Array(r) => Ok(r),
        _ => match v.member("results"@) {
            Some(JsonModel::Array(r)) => {
                let p = v.member("pagination"@);
                let count = match p {
                    Some(x) => number_of(x, "count"@),
                    None => None,
                };
                let next = match p {
                    Some(x) => number_of(x, "next"@),
                    None => None,
                };
                if count is None || (count->0) as nat != r.len() || (next matches Some(n) && n > 0)
                    || text_of(v, "next"@) is Some {
                    Err(
                        Failure::Bad(
                            "Incomplete paginated export; collect every page into an array first"@,
                        ),
                    )
                } else {
                    Ok(r)
                }
            },
            _ => Err(
                Failure::Bad("Exports must contain an array or complete API results"@),
            ),
        },
    }
}

pub open spec fn number_of(v: JsonModel, key: Seq<char>) -> Option<u64> {
    match v.member(key) {
        Some(x) => x.number(),
        None => None,
    }
}

fn get_number(v: &Json, key: &str) -> (r: Option<u64>)
    ensures
        r == number_of(v@, key@),
{
    match v.get(key) {
        Some(x) => x.as_number(),
        None => None,
    }
}

pub fn rows(v: &Json) -> (r: Result<&Vec<Json>, Error>)
    ensures
        match rows_of(v@) {
            Ok(s) => r is Ok && items_of(r->Ok_0@) == s,
            Err(f) => fails(r, f),
        },
{
    if let Json::Array(r) = v {
        proof {
            lemma_items_of(*r);
        }
        return Ok(r);
    }
    let found = match v.get("results") {
        Some(Json::Array(r)) => r,
        _ => return Err(
            Error::bad("Exports must contain an array or complete API results"),
        ),
    };
    proof {
        lemma_items_of(*found);
    }
    let (count, next) = match v.get("pagination") {
        Some(p) => (get_number(p, "count"), get_number(p, "next")),
        None => (None, None),
    };
    let counted = match count {
        Some(n) => n == found.len() as u64,
        None => false,
    };
    let more = match next {
        Some(n) => n > 0,
        None => false,
    };
    if !counted || more || v.get_text("next").is_some() {
        return Err(
            Error::bad("Incomplete paginated export; collect every page into an array first"),
        );
    }
    Ok(found)
}

/// The identifier that a value writes: a text or a whole number.
pub open spec fn id_in(v: Option<JsonModel>) -> Result<Seq<char>, Failure> {
    match v {
        Some(JsonModel::Text(s)) => if s.len() > 0 {
            Ok(s)
        } else {
            Err(Failure::Bad("Missing export identifier"@))
        },
        Some(JsonModel::Unsigned(n)) => Ok(decimal(n as nat)),
        _ => Err(Failure::Bad("Missing export identifier"@)),
    }
}

/// The view of an optional JSON value.
pub open spec fn opt_json(o: Option<&Json>) -> Option<JsonModel> {
    match o {
        Some(j) => Some(j@),
        None => None,
    }
}

pub fn identifier(v: Option<&Json>) -> (r: Result<String, Error>)
    ensures
        agrees_with(r, id_in(opt_json(v))),
{
    match v {
        Some(Json::Text(s)) => {
            if s.as_str().is_empty() {
                Err(Error::bad("Missing export identifier"))
            } else {
                Ok(s.clone())
            }
        },
        Some(Json::Unsigned(n)) => Ok(decimal_text(*n)),
        _ => Err(Error::bad("Missing export identifier")),
    }
}

/// The text member that every row has.
pub open spec fn field_of(v: JsonModel, name: Seq<char>) -> Result<Seq<char>, Failure> {
    match text_of(v, name) {
        Some(s) => Ok(s),
        None => Err(Failure::Bad("Export is missing "@ + name)),
    }
}

pub fn field(v: &Json, name: &str) -> (r: Result<String, Error>)
    ensures
        agrees_with(r, field_of(v@, name@)),
{
    match v.get_text(name) {
        Some(s) => Ok(s.clone()),
        None => {
            let m = concat("Export is missing ", name);
            Err(Error::Bad(m))
        },
    }
}

/// The identifiers of a list.
pub open spec fn ids_in(v: Seq<JsonModel>) -> Result<Set<Seq<char>>, Failure>
    decreases v.len(),
{
    if v.len() == 0 {
        Ok(Set::empty())
    } else {
        match ids_in(v.drop_last()) {
            Err(f) => Err(f),
            Ok(s) => match id_in(Some(v.last())) {
                Err(f) => Err(f),
                Ok(x) => Ok(s.insert(x)),
            },
        }
    }
}

pub open spec fn ids_of(v: Option<JsonModel>) -> Result<Set<Seq<char>>, Failure> {
    match v {
        Some(JsonModel::Array(a)) => ids_in(a),
        _ => Err(Failure::Bad("Export relation must be an array"@)),
    }
}

/// The identifiers that the rows have under `key`.
pub open spec fn keys_in(v: Seq<JsonModel>, key: Seq<char>) -> Result<Set<Seq<char>>, Failure>
    decreases v.len(),
{
    if v.len() == 0 {
        Ok(Set::empty())
    } else {
        match keys_in(v.drop_last(), key) {
            Err(f) => Err(f),
            Ok(s) => match id_in(v.last().member(key)) {
                Err(f) => Err(f),
                Ok(x) => Ok(s.insert(x)),
            },
        }
    }
}

proof fn lemma_ids_fail(v: Seq<JsonModel>, n: int)
    requires
        0 <= n <= v.len(),
        ids_in(v.take(n)) is Err,
    ensures
        ids_in(v) == ids_in(v.take(n)),
    decreases v.len() - n,
{
    if n < v.len() {
        assert(v.take(n + 1).drop_last() =~= v.take(n));
        lemma_ids_fail(v, n + 1);
    } else {
        assert(v.take(n) =~= v);
    }
}

proof fn lemma_keys_fail(v: Seq<JsonModel>, key: Seq<char>, n: int)
    requires
        0 <= n <= v.len(),
        keys_in(v.take(n), key) is Err,
    ensures
        keys_in(v, key) == keys_in(v.take(n), key),
    decreases v.len() - n,
{
    if n < v.len() {
        assert(v.take(n + 1).drop_last() =~= v.take(n));
        lemma_keys_fail(v, key, n + 1);
    } else {
        assert(v.take(n) =~= v);
    }
}

#[verifier::loop_isolation(false)]
pub fn ids(v: Option<&Json>) -> (r: Result<Names, Error>)
    ensures
        agrees_with(r, ids_of(opt_json(v))),
{
    let list = match v {
        Some(Json::Array(a)) => a,
        _ => return Err(Error::bad("Export relation must be an array")),
    };
    proof {
        lemma_items_of(*list);
    }
    let ghost all = items_of(list@);
    let mut out = Names::new();
    let mut i: usize = 0;
    assert(all.take(0) =~= Seq::<JsonModel>::empty());
    while i < list.len()
        invariant
            i <= list.len(),
            ids_in(all.take(i as int)) == Ok::<Set<Seq<char>>, Failure>(out@),
        decreases list.len() - i,
    {
        proof {
            assert(all.take(i + 1).drop_last() =~= all.take(i as int));
            assert(all.take(i + 1).last() == list[i as int]@);
        }
        match identifier(Some(&list[i])) {
            Err(e) => {
                proof {
                    lemma_ids_fail(all, i + 1);
                }
                return Err(e);
            },
            Ok(x) => {
                out.insert(x.as_str());
            },
        }
        i = i + 1;
    }
    assert(all.take(i as int) =~= all);
    Ok(out)
}

#[verifier::loop_isolation(false)]
pub fn key_set(list: &Vec<Json>, key: &str) -> (r: Result<Names, Error>)
    ensures
        agrees_with(r, keys_in(items_of(list@), key@)),
{
    let ghost all = items_of(list@);
    let mut out = Names::new();
    let mut i: usize = 0;
    assert(all.take(0) =~= Seq::<JsonModel>::empty());
    while i < list.len()
        invariant
            i <= list.len(),
            keys_in(all.take(i as int), key@) == Ok::<Set<Seq<char>>, Failure>(out@),
        decreases list.len() - i,
    {
        proof {
            assert(all.take(i + 1).drop_last() =~= all.take(i as int));
            assert(all.take(i + 1).last() == list[i as int]@);
        }
        match identifier(list[i].get(key)) {
            Err(e) => {
                proof {
                    lemma_keys_fail(all, key@, i + 1);
                }
                return Err(e);
            },
            Ok(x) => {
                out.insert(x.as_str());
            },
        }
        i = i + 1;
    }
    assert(all.take(i as int) =~= all);
    Ok(out)
}

/// The seconds of a unit of time.
pub open spec fn unit_seconds(unit: Seq<char>) -> Option<u64> {
    if unit == "seconds"@ {
        Some(1)
    } else if unit == "minutes"@ {
        Some(60)
    } else if unit == "hours"@ {
        Some(3600)
    } else if unit == "days"@ {
        Some(86400)
    } else if unit == "weeks"@ {
        Some(604800)
    } else {
        None
    }
}

/// One `unit=number` of a duration, in seconds.
pub open spec fn part_seconds(p: Seq<char>) -> Result<nat, Failure> {
    let at = first_at(p, '=');
    if at >= p.len() {
        Err(Failure::Bad("Unsupported Authentik duration"@))
    } else {
        match unit_seconds(p.take(at)) {
            None => Err(Failure::Bad("Unsupported Authentik duration unit"@)),
            Some(u) => match number_in(p.skip(at + 1)) {
                None => Err(Failure::Bad("Invalid duration"@)),
                Some(n) => if n * u > u64::MAX {
                    Err(Failure::Bad("Duration overflow"@))
                } else {
                    Ok((n * u) as nat)
                },
            },
        }
    }
}

/// The seconds of a duration written as parts.
pub open spec fn parts_seconds(v: Seq<Seq<char>>) -> Result<nat, Failure>
    decreases v.len(),
{
    if v.len() == 0 {
        Ok(0)
    } else {
        match parts_seconds(v.drop_last()) {
            Err(f) => Err(f),
            Ok(a) => match part_seconds(v.last()) {
                Err(f) => Err(f),
                Ok(b) => if a + b > u64::MAX {
                    Err(Failure::Bad("Duration overflow"@))
                } else {
                    Ok(a + b)
                },
            },
        }
    }
}

/// The seconds of an exported duration, `None` where there is none.
pub open spec fn duration_of(v: Option<JsonModel>) -> Result<Option<u64>, Failure> {
    match v {
        Some(JsonModel::Text(s)) => match parts_seconds(parts(s, ';')) {
            Err(f) => Err(f),
            Ok(n) => Ok(Some(n as u64)),
        },
        _ => Ok(None),
    }
}

proof fn lemma_parts_fail(v: Seq<Seq<char>>, n: int)
    requires
        0 <= n <= v.len(),
        parts_seconds(v.take(n)) is Err,
    ensures
        parts_seconds(v) == parts_seconds(v.take(n)),
    decreases v.len() - n,
{
    if n < v.len() {
        assert(v.take(n + 1).drop_last() =~= v.take(n));
        lemma_parts_fail(v, n + 1);
    } else {
        assert(v.take(n) =~= v);
    }
}

fn part_value(p: &str) -> (r: Result<u64, Error>)
    ensures
        match part_seconds(p@) {
            Ok(n) => r is Ok && r->Ok_0 == n,
            Err(f) => fails(r, f),
        },
{
    let (unit, n) = match split_once(p, '=') {
        None => return Err(Error::bad("Unsupported Authentik duration")),
        Some(x) => x,
    };
    let u = unit.as_str();
    let seconds: u64 = if same(u, "seconds") {
        1
    } else if same(u, "minutes") {
        60
    } else if same(u, "hours") {
        3600
    } else if same(u, "days") {
        86400
    } else if same(u, "weeks") {
        604800
    } else {
        return Err(Error::bad("Unsupported Authentik duration unit"));
    };
    match parse_number(n.as_str()) {
        None => Err(Error::bad("Invalid duration")),
        Some(k) => match k.checked_mul(seconds) {
            None => Err(Error::bad("Duration overflow")),
            Some(x) => Ok(x),
        },
    }
}

#[verifier::loop_isolation(false)]
pub fn duration(v: Option<&Json>) -> (r: Result<Option<u64>, Error>)
    ensures
        match duration_of(opt_json(v)) {
            Ok(x) => r is Ok && r->Ok_0 == x,
            Err(f) => fails(r, f),
        },
{
    let s = match v {
        Some(Json::Text(t)) => t,
        _ => return Ok(None),
    };
    let list = split(s.as_str(), ';');
    let ghost all = texts(list@);
    let mut total: u64 = 0;
    let mut i: usize = 0;
    assert(all.take(0) =~= Seq::<Seq<char>>::empty());
    while i < list.len()
        invariant
            i <= list.len(),
            parts_seconds(all.take(i as int)) == Ok::<nat, Failure>(total as nat),
        decreases list.len() - i,
    {
        proof {
            assert(all.take(i + 1).drop_last() =~= all.take(i as int));
            assert(all.take(i + 1).last() == list[i as int]@);
        }
        match part_value(list[i].as_str()) {
            Err(e) => {
                proof {
                    lemma_parts_fail(all, i + 1);
                }
                return Err(e);
            },
            Ok(n) => match total.checked_add(n) {
                None => {
                    proof {
                        lemma_parts_fail(all, i + 1);
                    }
                    return Err(Error::bad("Duration overflow"));
                },
                Some(x) => {
                    total = x;
                },
            },
        }
        i = i + 1;
    }
    assert(all.take(i as int) =~= all);
    Ok(Some(total))
}

/// A list member that holds something.
pub open spec fn has_items(v: JsonModel, key: Seq<char>) -> bool {
    v.member(key) matches Some(JsonModel::Array(a)) && a.len() > 0
}

pub fn holds_items(v: &Json, key: &str) -> (r: bool)
    ensures
        r == has_items(v@, key@),
{
    match v.get(key) {
        Some(Json::Array(a)) => {
            proof {
                lemma_items_of(*a);
            }
            a.len() > 0
        },
        _ => false,
    }
}

/// A member that is there and is not null.
pub open spec fn is_set(v: JsonModel, key: Seq<char>) -> bool {
    v.member(key) is Some && v.member(key) != Some(JsonModel::Null)
}

pub fn holds(v: &Json, key: &str) -> (r: bool)
    ensures
        r == is_set(v@, key@),
{
    match v.get(key) {
        None => false,
        Some(Json::Null) => false,
        Some(_) => true,
    }
}

/// A text member that is not empty.
pub open spec fn nonempty_text(v: JsonModel, key: Seq<char>) -> Option<Seq<char>> {
    match text_of(v, key) {
        Some(s) => if s.len() > 0 {
            Some(s)
        } else {
            None
        },
        None => None,
    }
}

pub fn get_filled(v: &Json, key: &str) -> (r: Option<String>)
    ensures
        opt_text(r) == nonempty_text(v@, key@),
{
    match v.get_text(key) {
        Some(s) => if s.as_str().is_empty() {
            None
        } else {
            Some(s.clone())
        },
        None => None,
    }
}

pub fn member_is(v: &Json, key: &str, want: &str) -> (r: bool)
    ensures
        r == (text_of(v@, key@) == Some(want@)),
{
    match v.get_text(key) {
        Some(t) => same(t.as_str(), want),
        None => false,
    }
}

pub fn flag_is(v: &Json, key: &str, want: bool) -> (r: bool)
    ensures
        r == (v@.member(key@) == Some(JsonModel::Bool(want))),
{
    match v.get(key) {
        Some(Json::Bool(b)) => *b == want,
        _ => false,
    }
}

/// A duration is the sum of its parts, each of so many seconds.
pub proof fn durations_are_counted_in_seconds(p: Seq<char>, n: u64)
    requires
        number_in(p) == Some(n),
        n * 604800 <= u64::MAX,
    ensures
        part_seconds("seconds"@ + seq!['='] + p) == Ok::<nat, Failure>(n as nat),
        part_seconds("minutes"@ + seq!['='] + p) == Ok::<nat, Failure>((n * 60) as nat),
        part_seconds("hours"@ + seq!['='] + p) == Ok::<nat, Failure>((n * 3600) as nat),
        part_seconds("days"@ + seq!['='] + p) == Ok::<nat, Failure>((n * 86400) as nat),
        part_seconds("weeks"@ + seq!['='] + p) == Ok::<nat, Failure>((n * 604800) as nat),
{
    reveal_strlit("seconds");
    reveal_strlit("minutes");
    reveal_strlit("hours");
    reveal_strlit("days");
    reveal_strlit("weeks");
    assert("seconds"@.len() == 7 && "seconds"@[0] == 's');
    assert("minutes"@.len() == 7 && "minutes"@[0] == 'm');
    assert("hours"@.len() == 5 && "hours"@[0] == 'h');
    assert("days"@.len() == 4);
    assert("weeks"@.len() == 5 && "weeks"@[0] == 'w');
    lemma_unit(seq!['s', 'e', 'c', 'o', 'n', 'd', 's'], p);
    lemma_unit(seq!['m', 'i', 'n', 'u', 't', 'e', 's'], p);
    lemma_unit(seq!['h', 'o', 'u', 'r', 's'], p);
    lemma_unit(seq!['d', 'a', 'y', 's'], p);
    lemma_unit(seq!['w', 'e', 'e', 'k', 's'], p);
    assert("seconds"@ =~= seq!['s', 'e', 'c', 'o', 'n', 'd', 's']);
    assert("minutes"@ =~= seq!['m', 'i', 'n', 'u', 't', 'e', 's']);
    assert("hours"@ =~= seq!['h', 'o', 'u', 'r', 's']);
    assert("days"@ =~= seq!['d', 'a', 'y', 's']);
    assert("weeks"@ =~= seq!['w', 'e', 'e', 'k', 's']);
}

proof fn lemma_unit(unit: Seq<char>, p: Seq<char>)
    requires
        forall|i: int| 0 <= i < unit.len() ==> #[trigger] unit[i] != '=',
    ensures
        first_at(unit + seq!['='] + p, '=') == unit.len(),
        (unit + seq!['='] + p).take(unit.len() as int) == unit,
        (unit + seq!['='] + p).skip(unit.len() as int + 1) == p,
    decreases unit.len(),
{
    let s = unit + seq!['='] + p;
    assert(s.take(unit.len() as int) =~= unit);
    assert(s.skip(unit.len() as int + 1) =~= p);
    if unit.len() == 0 {
        assert(s[0] == '=');
    } else {
        let u = unit.drop_first();
        assert forall|i: int| 0 <= i < u.len() implies #[trigger] u[i] != '=' by {
            assert(u[i] == unit[i + 1]);
        }
        lemma_unit(u, p);
        assert(s[0] == unit[0]);
        assert(s.drop_first() =~= u + seq!['='] + p);
    }
}

/// An export is complete: a list, or all the results that it counts.
pub proof fn exports_are_complete(v: JsonModel, rows: Seq<JsonModel>)
    ensures
        rows_of(JsonModel::Array(rows)) == Ok::<Seq<JsonModel>, Failure>(rows),
        v is Object && rows_of(v) == Ok::<Seq<JsonModel>, Failure>(rows) ==> v.member("results"@)
            == Some(JsonModel::Array(rows)) && (v.member("pagination"@) matches Some(p) && number_of(
            p,
            "count"@,
        ) == Some(rows.len() as u64)),
{
}

} // verus!
