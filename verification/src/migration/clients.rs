//! Exported providers and applications.
use crate::error::{Error, Failure, agrees_with, fails};
use crate::json::{Json, JsonModel, items_of, lemma_items_of, text_of};
use crate::migration::{ClientResolution, ClientResolutionModel, ClientSpec, ClientSpecModel, Reviews, ReviewsModel, duration, duration_of, field, field_of, flag_is, get_filled, has_items, holds, holds_items, id_in, identifier, ids, ids_of, is_set, member_is, nonempty_text, opt_json};
use crate::model::{Client, ClientModel, ProviderSettings, ProviderSettingsModel};
use crate::names::{Names, add_all};
use crate::provider::{provider_check, validate_settings};
use crate::rules::{tell, told};
use crate::table::{Row, Table, views};
use crate::text::{among, concat, concat3, copy_list, copy_opt, opt_is, opt_text, same, texts};
use vstd::prelude::*;
use vstd::string::*;

verus! {

/// What the exported providers come to.
pub struct Converted {
    pub blockers: Names,
    pub bindings: Names,
    /// How each client names its users.
    pub subject_modes: Table<String>,
    pub clients: Vec<ClientSpec>,
}

/// What a [`Converted`] holds.
pub struct ConvertedModel {
    pub blockers: Set<Seq<char>>,
    pub bindings: Set<Seq<char>>,
    pub subject_modes: Map<Seq<char>, Seq<char>>,
    pub clients: Seq<ClientSpecModel>,
}

impl View for Converted {
    type V = ConvertedModel;

    open spec fn view(&self) -> ConvertedModel {
        ConvertedModel {
            blockers: self.blockers@,
            bindings: self.bindings@,
            subject_modes: self.subject_modes@,
            clients: crate::table::views(self.clients@),
        }
    }
}

impl Row for Converted {
    fn dup(&self) -> (r: Self) {
        Converted {
            blockers: self.blockers.copy(),
            bindings: self.bindings.copy(),
            subject_modes: self.subject_modes.dup(),
            clients: crate::table::dup_list(&self.clients),
        }
    }
}

/// The set with `message` added where `when` holds.
pub open spec fn noted(s: Set<Seq<char>>, when: bool, message: Seq<char>) -> Set<Seq<char>> {
    if when {
        s.insert(message)
    } else {
        s
    }
}

pub fn note(s: &mut Names, when: bool, id: &str, message: &str)
    ensures
        final(s)@ == noted(old(s)@, when, id@ + message@),
{
    if when {
        let m = concat(id, message);
        s.insert(m.as_str());
    }
}

/// The applications of a provider.
pub open spec fn applications_of(apps: Seq<JsonModel>, provider: Seq<char>) -> Seq<JsonModel> {
    apps.filter(|a: JsonModel| id_in(a.member("provider"@)) == Ok::<Seq<char>, Failure>(provider))
}

/// The dashboard entry that an application's export describes.
pub open spec fn app_of(a: JsonModel) -> crate::portal::SettingsModel {
    let url = nonempty_text(a, "meta_launch_url"@);
    crate::portal::SettingsModel {
        description: text_or(a, "meta_description"@),
        category: text_or(a, "group"@),
        launch_url: if url == Some("blank://blank"@) {
            None
        } else {
            url
        },
        hidden: text_of(a, "meta_launch_url"@) == Some("blank://blank"@) || a.member(
            "hide_from_application_dashboard"@,
        ) == Some(JsonModel::Bool(true)),
        icon: ""@,
        accent: ""@,
        launch_scopes: Set::empty(),
    }
}

/// A text member, or the empty text.
pub open spec fn text_or(v: JsonModel, key: Seq<char>) -> Seq<char> {
    match text_of(v, key) {
        Some(s) => s,
        None => ""@,
    }
}

fn get_text_or(v: &Json, key: &str) -> (r: String)
    ensures
        r@ == text_or(v@, key@),
{
    match v.get_text(key) {
        Some(s) => s.clone(),
        None => "".to_owned(),
    }
}

fn make_app(a: &Json) -> (r: crate::portal::Settings)
    ensures
        r@ == app_of(a@),
{
    let url = get_filled(a, "meta_launch_url");
    let blank = opt_is(&url, "blank://blank");
    crate::portal::Settings {
        description: get_text_or(a, "meta_description"),
        category: get_text_or(a, "group"),
        launch_url: if blank {
            None
        } else {
            url
        },
        hidden: member_is(a, "meta_launch_url", "blank://blank") || flag_is(
            a,
            "hide_from_application_dashboard",
            true,
        ),
        icon: "".to_owned(),
        accent: "".to_owned(),
        launch_scopes: Names::new(),
    }
}

/// The redirects of a provider: where it returns to, where it logs out to, and what is wrong.
pub struct Redirects {
    pub authorization: Vec<String>,
    pub logout: Vec<String>,
    pub blockers: Names,
}

/// What a [`Redirects`] holds.
pub struct RedirectsModel {
    pub authorization: Seq<Seq<char>>,
    pub logout: Seq<Seq<char>>,
    pub blockers: Set<Seq<char>>,
}

impl View for Redirects {
    type V = RedirectsModel;

    open spec fn view(&self) -> RedirectsModel {
        RedirectsModel {
            authorization: crate::text::texts(self.authorization@),
            logout: crate::text::texts(self.logout@),
            blockers: self.blockers@,
        }
    }
}

impl Row for Redirects {
    fn dup(&self) -> (r: Self) {
        Redirects {
            authorization: crate::text::copy_list(&self.authorization),
            logout: crate::text::copy_list(&self.logout),
            blockers: self.blockers.copy(),
        }
    }
}

/// One more exported redirect.
pub open spec fn redirect_added(r: RedirectsModel, cid: Seq<char>, row: JsonModel) -> Result<
    RedirectsModel,
    Failure,
> {
    if text_of(row, "matching_mode"@) != Some("strict"@) {
        Ok(
            RedirectsModel {
                blockers: r.blockers.insert(
                    cid + ": regex redirect needs explicit exact registrations"@,
                ),
                ..r
            },
        )
    } else {
        match field_of(row, "url"@) {
            Err(f) => Err(f),
            Ok(url) => {
                let kind = match text_of(row, "redirect_uri_type"@) {
                    Some(k) => k,
                    None => "authorization"@,
                };
                if kind == "authorization"@ {
                    Ok(RedirectsModel { authorization: r.authorization.push(url), ..r })
                } else if kind == "logout"@ {
                    if r.logout.contains(url) {
                        Ok(r)
                    } else {
                        Ok(RedirectsModel { logout: r.logout.push(url), ..r })
                    }
                } else {
                    Ok(
                        RedirectsModel {
                            blockers: r.blockers.insert(cid + ": unsupported redirect type"@),
                            ..r
                        },
                    )
                }
            },
        }
    }
}

pub open spec fn redirects_read(r: RedirectsModel, cid: Seq<char>, rows: Seq<JsonModel>) -> Result<
    RedirectsModel,
    Failure,
>
    decreases rows.len(),
{
    if rows.len() == 0 {
        Ok(r)
    } else {
        match redirects_read(r, cid, rows.drop_last()) {
            Err(f) => Err(f),
            Ok(x) => redirect_added(x, cid, rows.last()),
        }
    }
}

proof fn lemma_redirects_fail(r: RedirectsModel, cid: Seq<char>, rows: Seq<JsonModel>, n: int)
    requires
        0 <= n <= rows.len(),
        redirects_read(r, cid, rows.take(n)) is Err,
    ensures
        redirects_read(r, cid, rows) == redirects_read(r, cid, rows.take(n)),
    decreases rows.len() - n,
{
    if n < rows.len() {
        assert(rows.take(n + 1).drop_last() =~= rows.take(n));
        lemma_redirects_fail(r, cid, rows, n + 1);
    } else {
        assert(rows.take(n) =~= rows);
    }
}

fn push_text(v: &mut Vec<String>, s: String)
    ensures
        texts(final(v)@) == texts(old(v)@).push(s@),
{
    let ghost was = texts(v@);
    v.push(s);
    assert(texts(v@) =~= was.push(s@));
}

fn add_redirect(r: &mut Redirects, cid: &str, row: &Json) -> (e: Result<(), Error>)
    ensures
        match redirect_added(old(r)@, cid@, row@) {
            Ok(x) => e is Ok && final(r)@ == x,
            Err(f) => fails(e, f),
        },
{
    if !member_is(row, "matching_mode", "strict") {
        note(&mut r.blockers, true, cid, ": regex redirect needs explicit exact registrations");
        return Ok(());
    }
    let url = match field(row, "url") {
        Err(e) => return Err(e),
        Ok(u) => u,
    };
    let kind = match row.get_text("redirect_uri_type") {
        Some(k) => k.clone(),
        None => "authorization".to_owned(),
    };
    if same(kind.as_str(), "authorization") {
        push_text(&mut r.authorization, url);
    } else if same(kind.as_str(), "logout") {
        if !among(url.as_str(), &r.logout) {
            push_text(&mut r.logout, url);
        }
    } else {
        note(&mut r.blockers, true, cid, ": unsupported redirect type");
    }
    Ok(())
}

#[verifier::loop_isolation(false)]
fn read_redirects(start: Redirects, cid: &str, rows: &Vec<Json>) -> (r: Result<Redirects, Error>)
    ensures
        agrees_with(r, redirects_read(start@, cid@, items_of(rows@))),
{
    let ghost all = items_of(rows@);
    let ghost r0 = start@;
    let mut out = start;
    let mut i: usize = 0;
    assert(all.take(0) =~= Seq::<JsonModel>::empty());
    while i < rows.len()
        invariant
            i <= rows.len(),
            redirects_read(r0, cid@, all.take(i as int)) == Ok::<RedirectsModel, Failure>(out@),
        decreases rows.len() - i,
    {
        proof {
            assert(all.take(i + 1).drop_last() =~= all.take(i as int));
            assert(all.take(i + 1).last() == rows[i as int]@);
        }
        if let Err(e) = add_redirect(&mut out, cid, &rows[i]) {
            proof {
                lemma_redirects_fail(r0, cid@, all, i + 1);
            }
            return Err(e);
        }
        i = i + 1;
    }
    assert(all.take(i as int) =~= all);
    Ok(out)
}

/// What a provider's review left open.
pub open spec fn review_blockers(
    s: Set<Seq<char>>,
    cid: Seq<char>,
    p: JsonModel,
    r: ClientResolutionModel,
    mappings: Set<Seq<char>>,
) -> Set<Seq<char>> {
    let a = noted(
        s,
        !r.authentication_flow_reviewed,
        cid
            + ": authentication flow has not been reviewed for browser/terminal login and MFA"@,
    );
    let b = noted(
        a,
        mappings != r.translated_mapping_ids,
        cid
            + ": every exported property mapping must have a reviewed declarative translation"@,
    );
    let c = noted(
        b,
        has_items(p, "jwt_federation_sources"@) && !r.federation_reviewed,
        cid
            + ": review jwt_federation_sources and translate its trust into pinned machine_trust, exchange and token_managers settings"@,
    );
    let d = noted(
        c,
        has_items(p, "jwt_federation_providers"@) && !r.federation_reviewed,
        cid
            + ": review jwt_federation_providers and translate its trust into pinned machine_trust, exchange and token_managers settings"@,
    );
    noted(
        d,
        is_set(p, "encryption_key"@) && (r.settings.id_token_encryption is None
            || r.settings.access_token_encryption is None),
        cid
            + ": configure the reviewed public encryption key for both ID and access tokens"@,
    )
}

fn note_review(s: &mut Names, cid: &str, p: &Json, r: &ClientResolution, mappings: &Names)
    ensures
        final(s)@ == review_blockers(old(s)@, cid@, p@, r@, mappings@),
{
    note(
        s,
        !r.authentication_flow_reviewed,
        cid,
        ": authentication flow has not been reviewed for browser/terminal login and MFA",
    );
    note(
        s,
        !mappings.same_names(&r.translated_mapping_ids),
        cid,
        ": every exported property mapping must have a reviewed declarative translation",
    );
    note(
        s,
        holds_items(p, "jwt_federation_sources") && !r.federation_reviewed,
        cid,
        ": review jwt_federation_sources and translate its trust into pinned machine_trust, exchange and token_managers settings",
    );
    note(
        s,
        holds_items(p, "jwt_federation_providers") && !r.federation_reviewed,
        cid,
        ": review jwt_federation_providers and translate its trust into pinned machine_trust, exchange and token_managers settings",
    );
    note(
        s,
        holds(p, "encryption_key") && (r.settings.id_token_encryption.is_none()
            || r.settings.access_token_encryption.is_none()),
        cid,
        ": configure the reviewed public encryption key for both ID and access tokens",
    );
}

/// The grants of a client: the reviewed ones, or those of the export.
pub open spec fn grants_of(reviewed: Set<Seq<char>>, exported: Set<Seq<char>>) -> Set<Seq<char>> {
    if reviewed == Set::<Seq<char>>::empty() {
        exported
    } else {
        reviewed
    }
}

pub open spec fn grant_blockers(
    s: Set<Seq<char>>,
    cid: Seq<char>,
    grants: Set<Seq<char>>,
    exported: Set<Seq<char>>,
) -> Set<Seq<char>> {
    noted(
        noted(
            s,
            exported != Set::<Seq<char>>::empty() && !grants.subset_of(exported),
            cid + ": selected grants were not present in the export"@,
        ),
        grants == Set::<Seq<char>>::empty(),
        cid
            + ": explicitly inventory allowed grants; an empty legacy grant list is ambiguous"@,
    )
}

/// How a provider logs its users out: by which channel, and where.
pub open spec fn logout_channel(p: JsonModel) -> Option<(Seq<char>, Seq<char>)> {
    match nonempty_text(p, "logout_uri"@) {
        None => None,
        Some(uri) => Some((text_or(p, "logout_method"@), uri)),
    }
}

/// The settings that the export gives on top of the reviewed ones.
pub open spec fn settings_of(
    base: ProviderSettingsModel,
    p: JsonModel,
    app: Option<JsonModel>,
    issuer: Option<Seq<char>>,
    grants: Set<Seq<char>>,
    ttls: (Option<u64>, Option<u64>, Option<u64>),
    logout: Seq<Seq<char>>,
) -> ProviderSettingsModel {
    let channel = logout_channel(p);
    ProviderSettingsModel {
        app: if base.app is None && app is Some {
            Some(app_of(app->0))
        } else {
            base.app
        },
        issuer,
        allowed_grants: grants,
        code_ttl: ttls.0,
        access_token_ttl: ttls.1,
        refresh_token_ttl: ttls.2,
        userinfo_only: p.member("include_claims_in_id_token"@) == Some(JsonModel::Bool(false)),
        post_logout_redirect_uris: logout,
        backchannel_logout_uri: if channel is Some && (channel->0).0 == "backchannel"@ {
            Some((channel->0).1)
        } else {
            base.backchannel_logout_uri
        },
        frontchannel_logout_uri: if channel is Some && (channel->0).0 == "frontchannel"@ {
            Some((channel->0).1)
        } else {
            base.frontchannel_logout_uri
        },
        ..base
    }
}

/// Why a converted client is not acceptable, if it is not.
pub open spec fn complaint(c: ClientModel, reviews: ReviewsModel) -> Option<Seq<char>> {
    let rules = if reviews.clients.dom().contains(c.id) {
        reviews.clients[c.id]
    } else {
        reviews.rules
    };
    match provider_check(c, rules) {
        Err(f) => Some(told(reviews.messages, f)),
        Ok(_) => if reviews.mappings.dom().contains(c.id) {
            Some(reviews.mappings[c.id])
        } else {
            None
        },
    }
}

fn find_complaint(c: &Client, reviews: &Reviews) -> (r: Option<String>)
    ensures
        opt_text(r) == complaint(c@, reviews@),
{
    let rules = match reviews.clients.get(c.id.as_str()) {
        Some(x) => x,
        None => &reviews.rules,
    };
    match validate_settings(c, rules) {
        Err(e) => Some(tell(&reviews.messages, &e)),
        Ok(_) => match reviews.mappings.get(c.id.as_str()) {
            Some(m) => Some(m.clone()),
            None => None,
        },
    }
}

/// The times that a provider's export gives its codes, access tokens and refresh tokens.
pub open spec fn ttls_of(p: JsonModel) -> Result<(Option<u64>, Option<u64>, Option<u64>), Failure> {
    match duration_of(p.member("access_code_validity"@)) {
        Err(f) => Err(f),
        Ok(a) => match duration_of(p.member("access_token_validity"@)) {
            Err(f) => Err(f),
            Ok(b) => match duration_of(p.member("refresh_token_validity"@)) {
                Err(f) => Err(f),
                Ok(c) => Ok((a, b, c)),
            },
        },
    }
}

fn read_ttls(p: &Json) -> (r: Result<(Option<u64>, Option<u64>, Option<u64>), Error>)
    ensures
        match ttls_of(p@) {
            Ok(x) => r is Ok && r->Ok_0 == x,
            Err(f) => fails(r, f),
        },
{
    let a = match duration(p.get("access_code_validity")) {
        Err(e) => return Err(e),
        Ok(x) => x,
    };
    let b = match duration(p.get("access_token_validity")) {
        Err(e) => return Err(e),
        Ok(x) => x,
    };
    match duration(p.get("refresh_token_validity")) {
        Err(e) => Err(e),
        Ok(c) => Ok((a, b, c)),
    }
}

/// Whether a provider's export describes a confidential client.
pub open spec fn confidential_of(p: JsonModel) -> Result<bool, Failure> {
    match field_of(p, "client_type"@) {
        Err(f) => Err(f),
        Ok(t) => if t == "confidential"@ {
            Ok(true)
        } else if t == "public"@ {
            Ok(false)
        } else {
            Err(Failure::Bad("Unknown client type"@))
        },
    }
}

fn read_confidential(p: &Json) -> (r: Result<bool, Error>)
    ensures
        match confidential_of(p@) {
            Ok(x) => r is Ok && r->Ok_0 == x,
            Err(f) => fails(r, f),
        },
{
    match field(p, "client_type") {
        Err(e) => Err(e),
        Ok(t) => {
            if same(t.as_str(), "confidential") {
                Ok(true)
            } else if same(t.as_str(), "public") {
                Ok(false)
            } else {
                Err(Error::bad("Unknown client type"))
            }
        },
    }
}

/// The list under `key`.
pub open spec fn list_of(v: JsonModel, key: Seq<char>) -> Option<Seq<JsonModel>> {
    match v.member(key) {
        Some(JsonModel::Array(a)) => Some(a),
        _ => None,
    }
}

/// What a provider's row says, read in the order in which its faults are reported.
pub ghost struct ProviderRow {
    pub mappings: Set<Seq<char>>,
    pub apps: Seq<JsonModel>,
    pub grants: Set<Seq<char>>,
    pub ttls: (Option<u64>, Option<u64>, Option<u64>),
    pub redirects: RedirectsModel,
    pub confidential: bool,
    pub name: Seq<char>,
    pub mode: Seq<char>,
}

pub open spec fn provider_row(
    cid: Seq<char>,
    p: JsonModel,
    apps: Seq<JsonModel>,
    logout: Seq<Seq<char>>,
) -> Result<ProviderRow, Failure> {
    match ids_of(p.member("property_mappings"@)) {
        Err(f) => Err(f),
        Ok(mappings) => match id_in(p.member("pk"@)) {
            Err(f) => Err(f),
            Ok(pk) => match ids_of(p.member("grant_types"@)) {
                Err(f) => Err(f),
                Ok(grants) => match ttls_of(p) {
                    Err(f) => Err(f),
                    Ok(ttls) => match list_of(p, "redirect_uris"@) {
                        None => Err(Failure::Bad("Missing redirect_uris"@)),
                        Some(rows) => match redirects_read(
                            RedirectsModel {
                                authorization: Seq::empty(),
                                logout,
                                blockers: Set::empty(),
                            },
                            cid,
                            rows,
                        ) {
                            Err(f) => Err(f),
                            Ok(redirects) => match confidential_of(p) {
                                Err(f) => Err(f),
                                Ok(confidential) => match field_of(p, "name"@) {
                                    Err(f) => Err(f),
                                    Ok(name) => match field_of(p, "sub_mode"@) {
                                        Err(f) => Err(f),
                                        Ok(mode) => Ok(
                                            ProviderRow {
                                                mappings,
                                                apps: applications_of(apps, pk),
                                                grants,
                                                ttls,
                                                redirects,
                                                confidential,
                                                name,
                                                mode,
                                            },
                                        ),
                                    },
                                },
                            },
                        },
                    },
                },
            },
        },
    }
}

/// The client that a provider's row becomes.
pub open spec fn client_of(
    cid: Seq<char>,
    p: JsonModel,
    row: ProviderRow,
    r: ClientResolutionModel,
    issuer: Seq<char>,
) -> ClientSpecModel {
    let app = if row.apps.len() > 0 {
        Some(row.apps[0])
    } else {
        None
    };
    ClientSpecModel {
        client_id: cid,
        name: match app {
            Some(a) => match text_of(a, "name"@) {
                Some(n) => n,
                None => row.name,
            },
            None => row.name,
        },
        confidential: row.confidential,
        service: false,
        enabled: true,
        redirect_uris: row.redirects.authorization,
        scopes: r.scopes,
        allowed_groups: Set::empty(),
        require_mfa: r.require_mfa,
        settings: settings_of(
            r.settings,
            p,
            app,
            if r.issuer != issuer {
                Some(r.issuer)
            } else {
                None
            },
            grants_of(r.settings.allowed_grants, row.grants),
            row.ttls,
            row.redirects.logout,
        ),
        secret_ref: r.secret_ref,
        secret_version: r.secret_version,
    }
}

/// The client as the settings rules see it.
pub open spec fn candidate(c: ClientSpecModel) -> ClientModel {
    ClientModel {
        id: c.client_id,
        name: c.name,
        secret_hash: if c.confidential {
            Some("import"@)
        } else {
            None
        },
        redirect_uris: c.redirect_uris,
        scopes: c.scopes,
        allowed_groups: c.allowed_groups,
        require_mfa: c.require_mfa,
        enabled: c.enabled,
        service: c.service,
        settings: c.settings,
    }
}

/// The blockers that a provider's row adds.
pub open spec fn provider_blockers(
    s: Set<Seq<char>>,
    cid: Seq<char>,
    p: JsonModel,
    row: ProviderRow,
    r: ClientResolutionModel,
    issuer: Seq<char>,
    reviews: ReviewsModel,
) -> Set<Seq<char>> {
    let c = client_of(cid, p, row, r, issuer);
    let a = review_blockers(s, cid, p, r, row.mappings);
    let b = noted(
        a,
        row.apps.len() > 1,
        cid
            + ": multiple applications share this provider; resolve their separate launch metadata and policies explicitly"@,
    );
    let d = grant_blockers(b, cid, c.settings.allowed_grants, row.grants);
    let e = d.union(row.redirects.blockers);
    let channel = logout_channel(p);
    let g = noted(
        e,
        channel is Some && (channel->0).0 != "backchannel"@ && (channel->0).0 != "frontchannel"@,
        cid + ": unknown logout method"@,
    );
    let h = noted(
        g,
        row.confidential && (r.secret_ref is None || r.secret_version is None),
        cid
            + ": confidential client requires a secret reference/version; exported secrets are never copied into plans"@,
    );
    match complaint(candidate(c), reviews) {
        None => h,
        Some(m) => h.insert(cid + ": "@ + m),
    }
}

/// One more exported provider.
pub open spec fn provider_added(
    s: ConvertedModel,
    p: JsonModel,
    apps: Seq<JsonModel>,
    clients: Map<Seq<char>, ClientResolutionModel>,
    issuer: Seq<char>,
    reviews: ReviewsModel,
) -> Result<ConvertedModel, Failure> {
    match field_of(p, "client_id"@) {
        Err(f) => Err(f),
        Ok(cid) => if !clients.dom().contains(cid) {
            Ok(
                ConvertedModel {
                    blockers: s.blockers.insert(
                        cid
                            + ": provide reviewed issuer, scopes, mappings, policies and authentication requirements in clients"@,
                    ),
                    ..s
                },
            )
        } else {
            let r = clients[cid];
            if !reviews.rules.server_urls.contains(r.issuer) {
                Err(Failure::Bad("Invalid reviewed provider issuer"@))
            } else {
                match provider_row(cid, p, apps, r.settings.post_logout_redirect_uris) {
                    Err(f) => Err(f),
                    Ok(row) => Ok(
                        ConvertedModel {
                            blockers: provider_blockers(
                                s.blockers,
                                cid,
                                p,
                                row,
                                r,
                                issuer,
                                reviews,
                            ),
                            bindings: s.bindings.union(r.translated_binding_ids),
                            subject_modes: s.subject_modes.insert(cid, row.mode),
                            clients: s.clients.push(client_of(cid, p, row, r, issuer)),
                        },
                    ),
                }
            }
        },
    }
}

pub open spec fn providers_read(
    rows: Seq<JsonModel>,
    blockers: Set<Seq<char>>,
    apps: Seq<JsonModel>,
    clients: Map<Seq<char>, ClientResolutionModel>,
    issuer: Seq<char>,
    reviews: ReviewsModel,
) -> Result<ConvertedModel, Failure>
    decreases rows.len(),
{
    if rows.len() == 0 {
        Ok(
            ConvertedModel {
                blockers,
                bindings: Set::empty(),
                subject_modes: Map::empty(),
                clients: Seq::empty(),
            },
        )
    } else {
        match providers_read(rows.drop_last(), blockers, apps, clients, issuer, reviews) {
            Err(f) => Err(f),
            Ok(s) => provider_added(s, rows.last(), apps, clients, issuer, reviews),
        }
    }
}

proof fn lemma_providers_fail(
    rows: Seq<JsonModel>,
    blockers: Set<Seq<char>>,
    apps: Seq<JsonModel>,
    clients: Map<Seq<char>, ClientResolutionModel>,
    issuer: Seq<char>,
    reviews: ReviewsModel,
    n: int,
)
    requires
        0 <= n <= rows.len(),
        providers_read(rows.take(n), blockers, apps, clients, issuer, reviews) is Err,
    ensures
        providers_read(rows, blockers, apps, clients, issuer, reviews) == providers_read(
            rows.take(n),
            blockers,
            apps,
            clients,
            issuer,
            reviews,
        ),
    decreases rows.len() - n,
{
    if n < rows.len() {
        assert(rows.take(n + 1).drop_last() =~= rows.take(n));
        lemma_providers_fail(rows, blockers, apps, clients, issuer, reviews, n + 1);
    } else {
        assert(rows.take(n) =~= rows);
    }
}

/// The first application of a provider, and whether there are more.
#[verifier::loop_isolation(false)]
fn find_applications<'a>(apps: &'a Vec<Json>, provider: &str) -> (r: (Option<&'a Json>, bool))
    ensures
        ({
            let v = applications_of(items_of(apps@), provider@);
            r.1 == (v.len() > 1) && match r.0 {
                Some(a) => v.len() > 0 && a@ == v[0],
                None => v.len() == 0,
            }
        }),
{
    let ghost all = items_of(apps@);
    let ghost p = |a: JsonModel|
        id_in(a.member("provider"@)) == Ok::<Seq<char>, Failure>(provider@);
    let mut found: Option<&'a Json> = None;
    let mut more = false;
    let mut i: usize = 0;
    assert(all.take(0).filter(p) =~= Seq::<JsonModel>::empty());
    while i < apps.len()
        invariant
            i <= apps.len(),
            more == (all.take(i as int).filter(p).len() > 1),
            match found {
                Some(a) => all.take(i as int).filter(p).len() > 0 && a@ == all.take(i as int).filter(
                    p,
                )[0],
                None => all.take(i as int).filter(p).len() == 0,
            },
        decreases apps.len() - i,
    {
        proof {
            assert(all.take(i + 1) =~= all.take(i as int).push(all[i as int]));
            all.take(i as int).lemma_filter_push(all[i as int], p);
            assert(all[i as int] == apps[i as int]@);
        }
        let a = &apps[i];
        let mine = match identifier(a.get("provider")) {
            Ok(x) => same(x.as_str(), provider),
            Err(_) => false,
        };
        if mine {
            if found.is_some() {
                more = true;
            } else {
                found = Some(a);
            }
        }
        i = i + 1;
    }
    assert(all.take(i as int) =~= all);
    (found, more)
}

fn make_settings(
    base: &ProviderSettings,
    p: &Json,
    app: Option<&Json>,
    issuer: Option<String>,
    grants: Names,
    ttls: (Option<u64>, Option<u64>, Option<u64>),
    logout: Vec<String>,
) -> (r: ProviderSettings)
    ensures
        r@ == settings_of(
            base@,
            p@,
            opt_json(app),
            opt_text(issuer),
            grants@,
            ttls,
            texts(logout@),
        ),
{
    let mut s = base.dup();
    if s.app.is_none() {
        if let Some(a) = app {
            s.app = Some(make_app(a));
        }
    }
    s.issuer = issuer;
    s.allowed_grants = grants;
    s.code_ttl = ttls.0;
    s.access_token_ttl = ttls.1;
    s.refresh_token_ttl = ttls.2;
    s.userinfo_only = flag_is(p, "include_claims_in_id_token", false);
    s.post_logout_redirect_uris = logout;
    if let Some(uri) = get_filled(p, "logout_uri") {
        let method = get_text_or(p, "logout_method");
        proof {
            reveal_strlit("backchannel");
            reveal_strlit("frontchannel");
            assert("backchannel"@[0] != "frontchannel"@[0]);
        }
        if same(method.as_str(), "backchannel") {
            s.backchannel_logout_uri = Some(uri);
        } else if same(method.as_str(), "frontchannel") {
            s.frontchannel_logout_uri = Some(uri);
        }
    }
    s
}

fn unknown_logout(p: &Json) -> (r: bool)
    ensures
        r == ({
            let channel = logout_channel(p@);
            channel is Some && (channel->0).0 != "backchannel"@ && (channel->0).0 != "frontchannel"@
        }),
{
    match get_filled(p, "logout_uri") {
        None => false,
        Some(_) => {
            let method = get_text_or(p, "logout_method");
            !same(method.as_str(), "backchannel") && !same(method.as_str(), "frontchannel")
        },
    }
}

fn make_candidate(c: &ClientSpec) -> (r: Client)
    ensures
        r@ == candidate(c@),
{
    Client {
        id: c.client_id.clone(),
        name: c.name.clone(),
        secret_hash: if c.confidential {
            Some("import".to_owned())
        } else {
            None
        },
        redirect_uris: copy_list(&c.redirect_uris),
        scopes: c.scopes.copy(),
        allowed_groups: c.allowed_groups.copy(),
        require_mfa: c.require_mfa,
        enabled: c.enabled,
        service: c.service,
        settings: c.settings.dup(),
    }
}

fn add_provider(
    s: &mut Converted,
    p: &Json,
    apps: &Vec<Json>,
    clients: &Table<ClientResolution>,
    issuer: &str,
    reviews: &Reviews,
) -> (e: Result<(), Error>)
    ensures
        match provider_added(old(s)@, p@, items_of(apps@), clients@, issuer@, reviews@) {
            Ok(x) => e is Ok && final(s)@ == x,
            Err(f) => fails(e, f),
        },
{
    let cid = match field(p, "client_id") {
        Err(e) => return Err(e),
        Ok(x) => x,
    };
    let r = match clients.get(cid.as_str()) {
        None => {
            note(
                &mut s.blockers,
                true,
                cid.as_str(),
                ": provide reviewed issuer, scopes, mappings, policies and authentication requirements in clients",
            );
            return Ok(());
        },
        Some(r) => r,
    };
    if !reviews.rules.server_urls.contains(r.issuer.as_str()) {
        return Err(Error::bad("Invalid reviewed provider issuer"));
    }
    let mappings = match ids(p.get("property_mappings")) {
        Err(e) => return Err(e),
        Ok(x) => x,
    };
    let pk = match identifier(p.get("pk")) {
        Err(e) => return Err(e),
        Ok(x) => x,
    };
    let (app, more) = find_applications(apps, pk.as_str());
    let exported = match ids(p.get("grant_types")) {
        Err(e) => return Err(e),
        Ok(x) => x,
    };
    let ttls = match read_ttls(p) {
        Err(e) => return Err(e),
        Ok(x) => x,
    };
    let rows = match p.get("redirect_uris") {
        Some(Json::Array(a)) => a,
        _ => return Err(Error::bad("Missing redirect_uris")),
    };
    proof {
        lemma_items_of(*rows);
    }
    let none: Vec<String> = Vec::new();
    assert(texts(none@) =~= Seq::<Seq<char>>::empty());
    let start = Redirects {
        authorization: none,
        logout: copy_list(&r.settings.post_logout_redirect_uris),
        blockers: Names::new(),
    };
    let redirects = match read_redirects(start, cid.as_str(), rows) {
        Err(e) => return Err(e),
        Ok(x) => x,
    };
    let confidential = match read_confidential(p) {
        Err(e) => return Err(e),
        Ok(x) => x,
    };
    let name = match field(p, "name") {
        Err(e) => return Err(e),
        Ok(x) => x,
    };
    let mode = match field(p, "sub_mode") {
        Err(e) => return Err(e),
        Ok(x) => x,
    };
    let ghost row = provider_row(
        cid@,
        p@,
        items_of(apps@),
        r@.settings.post_logout_redirect_uris,
    )->Ok_0;
    let grants = if r.settings.allowed_grants.is_empty() {
        exported.copy()
    } else {
        r.settings.allowed_grants.copy()
    };
    let known = if same(r.issuer.as_str(), issuer) {
        None
    } else {
        Some(r.issuer.clone())
    };
    let shown = match app {
        Some(a) => match a.get_text("name") {
            Some(n) => n.clone(),
            None => name,
        },
        None => name,
    };
    let settings = make_settings(
        &r.settings,
        p,
        app,
        known,
        grants.copy(),
        ttls,
        redirects.logout,
    );
    let spec = ClientSpec {
        client_id: cid.clone(),
        name: shown,
        confidential,
        service: false,
        enabled: true,
        redirect_uris: redirects.authorization,
        scopes: r.scopes.copy(),
        allowed_groups: Names::new(),
        require_mfa: r.require_mfa,
        settings,
        secret_ref: copy_opt(&r.secret_ref),
        secret_version: copy_opt(&r.secret_version),
    };
    assert(spec@ == client_of(cid@, p@, row, r@, issuer@));
    let id = cid.as_str();
    note_review(&mut s.blockers, id, p, r, &mappings);
    note(
        &mut s.blockers,
        more,
        id,
        ": multiple applications share this provider; resolve their separate launch metadata and policies explicitly",
    );
    note(
        &mut s.blockers,
        !exported.is_empty() && !grants.is_subset(&exported),
        id,
        ": selected grants were not present in the export",
    );
    note(
        &mut s.blockers,
        grants.is_empty(),
        id,
        ": explicitly inventory allowed grants; an empty legacy grant list is ambiguous",
    );
    add_all(&mut s.blockers, &redirects.blockers);
    note(&mut s.blockers, unknown_logout(p), id, ": unknown logout method");
    note(
        &mut s.blockers,
        confidential && (r.secret_ref.is_none() || r.secret_version.is_none()),
        id,
        ": confidential client requires a secret reference/version; exported secrets are never copied into plans",
    );
    let client = make_candidate(&spec);
    if let Some(m) = find_complaint(&client, reviews) {
        let text = concat3(id, ": ", m.as_str());
        s.blockers.insert(text.as_str());
    }
    add_all(&mut s.bindings, &r.translated_binding_ids);
    s.subject_modes.put(id, mode);
    let ghost was = views(s.clients@);
    let ghost sm = spec@;
    s.clients.push(spec);
    assert(views(s.clients@) =~= was.push(sm));
    Ok(())
}

/// Converts the exported providers.
#[verifier::loop_isolation(false)]
pub fn read_providers(
    rows: &Vec<Json>,
    blockers: Names,
    apps: &Vec<Json>,
    clients: &Table<ClientResolution>,
    issuer: &str,
    reviews: &Reviews,
) -> (r: Result<Converted, Error>)
    ensures
        agrees_with(
            r,
            providers_read(
                items_of(rows@),
                blockers@,
                items_of(apps@),
                clients@,
                issuer@,
                reviews@,
            ),
        ),
{
    let ghost all = items_of(rows@);
    let ghost b0 = blockers@;
    let ghost am = items_of(apps@);
    let mut out = Converted {
        blockers,
        bindings: Names::new(),
        subject_modes: Table::new(),
        clients: Vec::new(),
    };
    assert(views(out.clients@) =~= Seq::<ClientSpecModel>::empty());
    assert(all.take(0) =~= Seq::<JsonModel>::empty());
    let mut i: usize = 0;
    while i < rows.len()
        invariant
            i <= rows.len(),
            providers_read(all.take(i as int), b0, am, clients@, issuer@, reviews@) == Ok::<
                ConvertedModel,
                Failure,
            >(out@),
        decreases rows.len() - i,
    {
        proof {
            assert(all.take(i + 1).drop_last() =~= all.take(i as int));
            assert(all.take(i + 1).last() == rows[i as int]@);
        }
        if let Err(e) = add_provider(&mut out, &rows[i], apps, clients, issuer, reviews) {
            proof {
                lemma_providers_fail(all, b0, am, clients@, issuer@, reviews@, i + 1);
            }
            return Err(e);
        }
        i = i + 1;
    }
    assert(all.take(i as int) =~= all);
    Ok(out)
}

/// The blockers that an application's row adds.
pub open spec fn application_added(
    s: Set<Seq<char>>,
    a: JsonModel,
    providers: Set<Seq<char>>,
) -> Result<Set<Seq<char>>, Failure> {
    match if is_set(a, "provider"@) {
        match id_in(a.member("provider"@)) {
            Err(f) => Err(f),
            Ok(id) => if providers.contains(id) {
                Ok(s)
            } else {
                match field_of(a, "slug"@) {
                    Err(f) => Err(f),
                    Ok(slug) => Ok(
                        s.insert(
                            "Application "@ + slug + " uses an unexported or unsupported provider"@,
                        ),
                    ),
                }
            },
        }
    } else {
        Ok(s)
    } {
        Err(f) => Err(f),
        Ok(t) => if has_items(a, "backchannel_providers"@) {
            match field_of(a, "slug"@) {
                Err(f) => Err(f),
                Ok(slug) => Ok(
                    t.insert(
                        "Application "@ + slug
                            + " has provisioning providers requiring separate migration"@,
                    ),
                ),
            }
        } else {
            Ok(t)
        },
    }
}

pub open spec fn applications_read(
    s: Set<Seq<char>>,
    rows: Seq<JsonModel>,
    providers: Set<Seq<char>>,
) -> Result<Set<Seq<char>>, Failure>
    decreases rows.len(),
{
    if rows.len() == 0 {
        Ok(s)
    } else {
        match applications_read(s, rows.drop_last(), providers) {
            Err(f) => Err(f),
            Ok(x) => application_added(x, rows.last(), providers),
        }
    }
}

proof fn lemma_applications_fail(
    s: Set<Seq<char>>,
    rows: Seq<JsonModel>,
    providers: Set<Seq<char>>,
    n: int,
)
    requires
        0 <= n <= rows.len(),
        applications_read(s, rows.take(n), providers) is Err,
    ensures
        applications_read(s, rows, providers) == applications_read(s, rows.take(n), providers),
    decreases rows.len() - n,
{
    if n < rows.len() {
        assert(rows.take(n + 1).drop_last() =~= rows.take(n));
        lemma_applications_fail(s, rows, providers, n + 1);
    } else {
        assert(rows.take(n) =~= rows);
    }
}

fn add_application(s: &mut Names, a: &Json, providers: &Names) -> (e: Result<(), Error>)
    ensures
        match application_added(old(s)@, a@, providers@) {
            Ok(x) => e is Ok && final(s)@ == x,
            Err(f) => fails(e, f),
        },
{
    if holds(a, "provider") {
        let id = match identifier(a.get("provider")) {
            Err(e) => return Err(e),
            Ok(x) => x,
        };
        if !providers.contains(id.as_str()) {
            let slug = match field(a, "slug") {
                Err(e) => return Err(e),
                Ok(x) => x,
            };
            let m = concat3(
                "Application ",
                slug.as_str(),
                " uses an unexported or unsupported provider",
            );
            s.insert(m.as_str());
        }
    }
    if holds_items(a, "backchannel_providers") {
        let slug = match field(a, "slug") {
            Err(e) => return Err(e),
            Ok(x) => x,
        };
        let m = concat3(
            "Application ",
            slug.as_str(),
            " has provisioning providers requiring separate migration",
        );
        s.insert(m.as_str());
    }
    Ok(())
}

/// Reads the exported applications.
#[verifier::loop_isolation(false)]
pub fn read_applications(s: Names, rows: &Vec<Json>, providers: &Names) -> (r: Result<Names, Error>)
    ensures
        agrees_with(r, applications_read(s@, items_of(rows@), providers@)),
{
    let ghost all = items_of(rows@);
    let ghost s0 = s@;
    let mut out = s;
    let mut i: usize = 0;
    assert(all.take(0) =~= Seq::<JsonModel>::empty());
    while i < rows.len()
        invariant
            i <= rows.len(),
            applications_read(s0, all.take(i as int), providers@) == Ok::<
                Set<Seq<char>>,
                Failure,
            >(out@),
        decreases rows.len() - i,
    {
        proof {
            assert(all.take(i + 1).drop_last() =~= all.take(i as int));
            assert(all.take(i + 1).last() == rows[i as int]@);
        }
        if let Err(e) = add_application(&mut out, &rows[i], providers) {
            proof {
                lemma_applications_fail(s0, all, providers@, i + 1);
            }
            return Err(e);
        }
        i = i + 1;
    }
    assert(all.take(i as int) =~= all);
    Ok(out)
}

/// The sources that a review resolved, and the blockers for those that none resolved.
pub struct Sources {
    pub sources: Vec<Json>,
    pub blockers: Names,
}

/// What a [`Sources`] holds.
pub struct SourcesModel {
    pub sources: Seq<JsonModel>,
    pub blockers: Set<Seq<char>>,
}

impl View for Sources {
    type V = SourcesModel;

    open spec fn view(&self) -> SourcesModel {
        SourcesModel {
            sources: crate::table::views(self.sources@),
            blockers: self.blockers@,
        }
    }
}

impl Row for Sources {
    fn dup(&self) -> (r: Self) {
        Sources {
            sources: crate::table::dup_list(&self.sources),
            blockers: self.blockers.copy(),
        }
    }
}

pub open spec fn source_added(
    s: SourcesModel,
    row: JsonModel,
    resolutions: Map<Seq<char>, JsonModel>,
    refused: Set<Seq<char>>,
) -> Result<SourcesModel, Failure> {
    match id_in(row.member("pk"@)) {
        Err(f) => Err(f),
        Ok(id) => if !resolutions.dom().contains(id) {
            Ok(
                SourcesModel {
                    blockers: s.blockers.insert(
                        "Source "@ + id
                            + ": provide an explicitly reviewed OIDC source resolution; non-OIDC sources need their own adapter"@,
                    ),
                    ..s
                },
            )
        } else if refused.contains(id) {
            Err(Failure::Refused(id))
        } else {
            Ok(SourcesModel { sources: s.sources.push(resolutions[id]), ..s })
        },
    }
}

pub open spec fn sources_read(
    rows: Seq<JsonModel>,
    resolutions: Map<Seq<char>, JsonModel>,
    refused: Set<Seq<char>>,
) -> Result<SourcesModel, Failure>
    decreases rows.len(),
{
    if rows.len() == 0 {
        Ok(SourcesModel { sources: Seq::empty(), blockers: Set::empty() })
    } else {
        match sources_read(rows.drop_last(), resolutions, refused) {
            Err(f) => Err(f),
            Ok(s) => source_added(s, rows.last(), resolutions, refused),
        }
    }
}

proof fn lemma_sources_fail(
    rows: Seq<JsonModel>,
    resolutions: Map<Seq<char>, JsonModel>,
    refused: Set<Seq<char>>,
    n: int,
)
    requires
        0 <= n <= rows.len(),
        sources_read(rows.take(n), resolutions, refused) is Err,
    ensures
        sources_read(rows, resolutions, refused) == sources_read(
            rows.take(n),
            resolutions,
            refused,
        ),
    decreases rows.len() - n,
{
    if n < rows.len() {
        assert(rows.take(n + 1).drop_last() =~= rows.take(n));
        lemma_sources_fail(rows, resolutions, refused, n + 1);
    } else {
        assert(rows.take(n) =~= rows);
    }
}

/// Reads the exported sources.
#[verifier::loop_isolation(false)]
pub fn read_sources(rows: &Vec<Json>, resolutions: &Table<Json>, refused: &Names) -> (r: Result<
    Sources,
    Error,
>)
    ensures
        agrees_with(r, sources_read(items_of(rows@), resolutions@, refused@)),
{
    let ghost all = items_of(rows@);
    let mut out = Sources { sources: Vec::new(), blockers: Names::new() };
    assert(views(out.sources@) =~= Seq::<JsonModel>::empty());
    assert(all.take(0) =~= Seq::<JsonModel>::empty());
    let mut i: usize = 0;
    while i < rows.len()
        invariant
            i <= rows.len(),
            sources_read(all.take(i as int), resolutions@, refused@) == Ok::<
                SourcesModel,
                Failure,
            >(out@),
        decreases rows.len() - i,
    {
        proof {
            assert(all.take(i + 1).drop_last() =~= all.take(i as int));
            assert(all.take(i + 1).last() == rows[i as int]@);
        }
        let id = match identifier(rows[i].get("pk")) {
            Err(e) => {
                proof {
                    lemma_sources_fail(all, resolutions@, refused@, i + 1);
                }
                return Err(e);
            },
            Ok(x) => x,
        };
        match resolutions.get(id.as_str()) {
            None => {
                let m = concat3(
                    "Source ",
                    id.as_str(),
                    ": provide an explicitly reviewed OIDC source resolution; non-OIDC sources need their own adapter",
                );
                out.blockers.insert(m.as_str());
            },
            Some(spec) => {
                if refused.contains(id.as_str()) {
                    proof {
                        lemma_sources_fail(all, resolutions@, refused@, i + 1);
                    }
                    return Err(Error::Refused(id));
                }
                let ghost was = views(out.sources@);
                let x = spec.dup();
                let ghost xm = x@;
                out.sources.push(x);
                assert(views(out.sources@) =~= was.push(xm));
            },
        }
        i = i + 1;
    }
    assert(all.take(i as int) =~= all);
    Ok(out)
}

/// An imported client has the addresses of its export and what was reviewed for it; it serves users, and
/// its secret is named, never copied.
pub proof fn imported_clients_are_as_reviewed(
    cid: Seq<char>,
    p: JsonModel,
    row: ProviderRow,
    r: ClientResolutionModel,
    issuer: Seq<char>,
)
    ensures
        ({
            let c = client_of(cid, p, row, r, issuer);
            &&& c.client_id == cid && c.enabled && !c.service
            &&& c.confidential == row.confidential
            &&& c.redirect_uris == row.redirects.authorization
            &&& c.scopes == r.scopes && c.require_mfa == r.require_mfa
            &&& c.secret_ref == r.secret_ref && c.secret_version == r.secret_version
            &&& r.issuer == issuer ==> c.settings.issuer is None
            &&& r.issuer != issuer ==> c.settings.issuer == Some(r.issuer)
            &&& r.settings.allowed_grants != Set::<Seq<char>>::empty() ==> c.settings.allowed_grants
                == r.settings.allowed_grants
            &&& r.settings.allowed_grants == Set::<Seq<char>>::empty() ==> c.settings.allowed_grants
                == row.grants
            &&& c.settings.code_ttl == row.ttls.0 && c.settings.access_token_ttl == row.ttls.1
                && c.settings.refresh_token_ttl == row.ttls.2
            &&& c.settings.post_logout_redirect_uris == row.redirects.logout
        }),
{
}

/// A redirect of an export is taken where it is exact, as what it says it is; a pattern blocks the import.
pub proof fn exported_redirects_are_exact(
    r: RedirectsModel,
    cid: Seq<char>,
    row: JsonModel,
    url: Seq<char>,
)
    requires
        text_of(row, "url"@) == Some(url),
    ensures
        text_of(row, "matching_mode"@) == Some("strict"@) && text_of(row, "redirect_uri_type"@)
            is None ==> redirect_added(r, cid, row) == Ok::<RedirectsModel, Failure>(
            RedirectsModel { authorization: r.authorization.push(url), ..r },
        ),
        text_of(row, "matching_mode"@) == Some("strict"@) && text_of(row, "redirect_uri_type"@)
            == Some("logout"@) && !r.logout.contains(url) ==> redirect_added(r, cid, row) == Ok::<
            RedirectsModel,
            Failure,
        >(RedirectsModel { logout: r.logout.push(url), ..r }),
        text_of(row, "matching_mode"@) != Some("strict"@) ==> (redirect_added(r, cid, row) matches Ok(x)
            && x.authorization == r.authorization && x.logout == r.logout && x.blockers.contains(
            cid + ": regex redirect needs explicit exact registrations"@,
        )),
{
    reveal_strlit("authorization");
    reveal_strlit("logout");
    assert("authorization"@.len() == 13 && "logout"@.len() == 6);
}

/// What was not reviewed blocks the import.
pub proof fn unreviewed_clients_block_the_import(
    s: Set<Seq<char>>,
    cid: Seq<char>,
    p: JsonModel,
    row: ProviderRow,
    r: ClientResolutionModel,
    issuer: Seq<char>,
    reviews: ReviewsModel,
)
    ensures
        ({
            let b = provider_blockers(s, cid, p, row, r, issuer, reviews);
            &&& s.subset_of(b)
            &&& !r.authentication_flow_reviewed ==> b.contains(
                cid
                    + ": authentication flow has not been reviewed for browser/terminal login and MFA"@,
            )
            &&& row.mappings != r.translated_mapping_ids ==> b.contains(
                cid
                    + ": every exported property mapping must have a reviewed declarative translation"@,
            )
            &&& row.confidential && r.secret_ref is None ==> b.contains(
                cid
                    + ": confidential client requires a secret reference/version; exported secrets are never copied into plans"@,
            )
        }),
{
}

/// A client stops the import until its login flow and every mapping of it are reviewed, and its
/// federation and encryption where it has them; what was noted stays.
pub proof fn reviews_are_asked_for_everything_that_needs_one(
    s: Set<Seq<char>>,
    cid: Seq<char>,
    p: JsonModel,
    r: ClientResolutionModel,
    mappings: Set<Seq<char>>,
)
    ensures
        ({
            let b = review_blockers(s, cid, p, r, mappings);
            &&& s.subset_of(b)
            &&& !r.authentication_flow_reviewed ==> b.contains(
                cid + ": authentication flow has not been reviewed for browser/terminal login and MFA"@,
            )
            &&& mappings != r.translated_mapping_ids ==> b.contains(
                cid + ": every exported property mapping must have a reviewed declarative translation"@,
            )
            &&& has_items(p, "jwt_federation_sources"@) && !r.federation_reviewed ==> b.contains(
                cid
                    + ": review jwt_federation_sources and translate its trust into pinned machine_trust, exchange and token_managers settings"@,
            )
            &&& has_items(p, "jwt_federation_providers"@) && !r.federation_reviewed ==> b.contains(
                cid
                    + ": review jwt_federation_providers and translate its trust into pinned machine_trust, exchange and token_managers settings"@,
            )
            &&& p.member("encryption_key"@) is Some && p.member("encryption_key"@) != Some(JsonModel::Null) && (
            r.settings.id_token_encryption is None || r.settings.access_token_encryption is None)
                ==> b.contains(
                cid + ": configure the reviewed public encryption key for both ID and access tokens"@,
            )
            &&& r.authentication_flow_reviewed && mappings == r.translated_mapping_ids && r.federation_reviewed
                && r.settings.id_token_encryption is Some && r.settings.access_token_encryption is Some ==> b
                == s
        }),
{
}

/// A source is taken over as it was reviewed; one without a review stops the import.
pub proof fn sources_are_taken_as_reviewed(
    s: SourcesModel,
    row: JsonModel,
    id: Seq<char>,
    resolutions: Map<Seq<char>, JsonModel>,
    refused: Set<Seq<char>>,
)
    requires
        id_in(row.member("pk"@)) == Ok::<Seq<char>, Failure>(id),
    ensures
        source_added(s, row, resolutions, refused) is Ok <==> !resolutions.dom().contains(id)
            || !refused.contains(id),
        source_added(s, row, resolutions, refused) matches Ok(u) ==> if resolutions.dom().contains(id) {
            u.sources == s.sources.push(resolutions[id]) && u.blockers == s.blockers
        } else {
            u.sources == s.sources && s.blockers.subset_of(u.blockers) && u.blockers.contains(
                "Source "@ + id
                    + ": provide an explicitly reviewed OIDC source resolution; non-OIDC sources need their own adapter"@,
            )
        },
{
}

/// An application stops the import if its provider was not exported, or if it provisions.
pub proof fn applications_need_their_provider(
    s: Set<Seq<char>>,
    a: JsonModel,
    providers: Set<Seq<char>>,
    slug: Seq<char>,
)
    requires
        text_of(a, "slug"@) == Some(slug),
        application_added(s, a, providers) is Ok,
    ensures
        ({
            let b = application_added(s, a, providers)->Ok_0;
            let provider = id_in(a.member("provider"@));
            &&& s.subset_of(b)
            &&& is_set(a, "provider"@) ==> provider is Ok
            &&& is_set(a, "provider"@) && !providers.contains(provider->Ok_0) ==> b.contains(
                "Application "@ + slug + " uses an unexported or unsupported provider"@,
            )
            &&& has_items(a, "backchannel_providers"@) ==> b.contains(
                "Application "@ + slug + " has provisioning providers requiring separate migration"@,
            )
            &&& !has_items(a, "backchannel_providers"@) && (!is_set(a, "provider"@) || providers.contains(
                provider->Ok_0,
            )) ==> b == s
        }),
{
}

/// An imported client keeps its lifetimes, grants, issuer and logout addresses; what was reviewed stays
/// where the export says nothing.
pub proof fn imported_settings_keep_what_was_exported(
    base: ProviderSettingsModel,
    p: JsonModel,
    app: Option<JsonModel>,
    issuer: Option<Seq<char>>,
    grants: Set<Seq<char>>,
    ttls: (Option<u64>, Option<u64>, Option<u64>),
    logout: Seq<Seq<char>>,
    uri: Seq<char>,
)
    ensures
        ({
            let s = settings_of(base, p, app, issuer, grants, ttls, logout);
            &&& s.issuer == issuer
            &&& s.allowed_grants == grants
            &&& s.code_ttl == ttls.0 && s.access_token_ttl == ttls.1 && s.refresh_token_ttl == ttls.2
            &&& s.post_logout_redirect_uris == logout
            &&& s.userinfo_only <==> p.member("include_claims_in_id_token"@) == Some(JsonModel::Bool(false))
            &&& s.app is Some <==> base.app is Some || app is Some
            &&& base.app is Some ==> s.app == base.app
            &&& logout_channel(p) is None ==> s.backchannel_logout_uri == base.backchannel_logout_uri
                && s.frontchannel_logout_uri == base.frontchannel_logout_uri
            &&& logout_channel(p) == Some(("backchannel"@, uri)) ==> s.backchannel_logout_uri == Some(uri)
                && s.frontchannel_logout_uri == base.frontchannel_logout_uri
            &&& logout_channel(p) == Some(("frontchannel"@, uri)) ==> s.frontchannel_logout_uri == Some(uri)
                && s.backchannel_logout_uri == base.backchannel_logout_uri
            &&& s.jwks == base.jwks && s.policy == base.policy && s.claim_mappings == base.claim_mappings
        }),
{
    reveal_strlit("backchannel");
    reveal_strlit("frontchannel");
    assert("backchannel"@[0] == 'b' && "frontchannel"@[0] == 'f');
}

/// A client is confidential or public as the export says, and nothing else; its lifetimes are read from
/// their own fields.
pub proof fn exported_clients_are_confidential_or_public(p: JsonModel)
    ensures
        confidential_of(p) == Ok::<bool, Failure>(true) <==> text_of(p, "client_type"@) == Some("confidential"@),
        confidential_of(p) == Ok::<bool, Failure>(false) <==> text_of(p, "client_type"@) == Some("public"@),
        ttls_of(p) matches Ok((a, b, c)) ==> duration_of(p.member("access_code_validity"@)) == Ok::<
            Option<u64>,
            Failure,
        >(a) && duration_of(p.member("access_token_validity"@)) == Ok::<Option<u64>, Failure>(b)
            && duration_of(p.member("refresh_token_validity"@)) == Ok::<Option<u64>, Failure>(c),
{
    reveal_strlit("confidential");
    reveal_strlit("public");
    assert("confidential"@[0] == 'c' && "public"@[0] == 'p');
}

/// An exported application keeps its texts and its address; one that opens nowhere, or is kept off the
/// list, stays off it.
pub proof fn exported_applications_keep_their_entry(a: JsonModel)
    ensures
        ({
            let s = app_of(a);
            &&& text_of(a, "meta_description"@) is Some ==> s.description == text_of(a, "meta_description"@)->0
            &&& text_of(a, "group"@) is Some ==> s.category == text_of(a, "group"@)->0
            &&& s.hidden <==> text_of(a, "meta_launch_url"@) == Some("blank://blank"@) || a.member(
                "hide_from_application_dashboard"@,
            ) == Some(JsonModel::Bool(true))
            &&& nonempty_text(a, "meta_launch_url"@) is Some && nonempty_text(a, "meta_launch_url"@)->0
                != "blank://blank"@ ==> s.launch_url == nonempty_text(a, "meta_launch_url"@)
            &&& nonempty_text(a, "meta_launch_url"@) is None || nonempty_text(a, "meta_launch_url"@)->0
                == "blank://blank"@ ==> s.launch_url is None
        }),
{
}

/// A provider stops the import for each thing that was left open: an application too many, a grant that
/// differs, an unknown way to log out, a secret that is missing, or a client that would not be valid.
/// With nothing left open it adds nothing.
pub proof fn open_questions_stop_the_import(
    s: Set<Seq<char>>,
    cid: Seq<char>,
    p: JsonModel,
    row: ProviderRow,
    r: ClientResolutionModel,
    issuer: Seq<char>,
    reviews: ReviewsModel,
)
    ensures
        ({
            let b = provider_blockers(s, cid, p, row, r, issuer, reviews);
            let c = client_of(cid, p, row, r, issuer);
            &&& row.apps.len() > 1 ==> b.contains(
                cid
                    + ": multiple applications share this provider; resolve their separate launch metadata and policies explicitly"@,
            )
            &&& row.redirects.blockers.subset_of(b)
            &&& logout_channel(p) is Some && (logout_channel(p)->0).0 != "backchannel"@ && (logout_channel(
                p,
            )->0).0 != "frontchannel"@ ==> b.contains(cid + ": unknown logout method"@)
            &&& row.confidential && (r.secret_ref is None || r.secret_version is None) ==> b.contains(
                cid
                    + ": confidential client requires a secret reference/version; exported secrets are never copied into plans"@,
            )
            &&& complaint(candidate(c), reviews) matches Some(m) ==> b.contains(cid + ": "@ + m)
            &&& row.apps.len() <= 1 && row.redirects.blockers == Set::<Seq<char>>::empty() && logout_channel(
                p,
            ) is None && (row.confidential ==> r.secret_ref is Some && r.secret_version is Some)
                && complaint(candidate(c), reviews) is None ==> b == grant_blockers(
                review_blockers(s, cid, p, r, row.mappings),
                cid,
                c.settings.allowed_grants,
                row.grants,
            )
        }),
{
    let c = client_of(cid, p, row, r, issuer);
    let d = grant_blockers(
        review_blockers(s, cid, p, r, row.mappings),
        cid,
        c.settings.allowed_grants,
        row.grants,
    );
    assert(d.union(Set::<Seq<char>>::empty()) =~= d);
}

/// Grants stop the import if none were chosen, or if one was chosen that was not exported.
pub proof fn chosen_grants_were_exported(
    s: Set<Seq<char>>,
    cid: Seq<char>,
    grants: Set<Seq<char>>,
    exported: Set<Seq<char>>,
)
    ensures
        ({
            let b = grant_blockers(s, cid, grants, exported);
            &&& s.subset_of(b)
            &&& grants == Set::<Seq<char>>::empty() ==> b.contains(
                cid + ": explicitly inventory allowed grants; an empty legacy grant list is ambiguous"@,
            )
            &&& exported != Set::<Seq<char>>::empty() && (exists|g: Seq<char>| #[trigger]
                grants.contains(g) && !exported.contains(g)) ==> b.contains(
                cid + ": selected grants were not present in the export"@,
            )
            &&& grants != Set::<Seq<char>>::empty() && (exported == Set::<Seq<char>>::empty()
                || grants.subset_of(exported)) ==> b == s
        }),
{
}

} // verus!
