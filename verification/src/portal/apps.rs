//! The catalogue of applications. The same live policies protect listing and launching.
use crate::engine::{ConfigModel, Core};
use crate::error::{Error, Failure, agrees, agrees_with, copy_error, fails, status_of};
use crate::ldap_server::filter::{fold, folded};
use crate::model::{Client, ClientModel};
use crate::names::{Names, add_all, in_order, lemma_take_set};
use crate::outside::{encode_form, form_encoded, parse_url, url_of};
use crate::provider::{grant_allowed, grant_check};
use crate::store::{Tx, TxModel};
use crate::table::{Row, Table, views};
use crate::text::{before, concat, concat3, opt_text, same, text_lt, trim_end_char, trim_end_of};
use vstd::prelude::*;
use vstd::string::*;

verus! {

/// What the rules outside the library say of a session's access to a client.
pub struct AppVerdict {
    pub authorization: Option<Error>,
    /// Why the client's assertion scopes cannot be told.
    pub saml: Option<Error>,
    pub saml_scopes: Names,
    pub claims: Option<Error>,
    pub assurance: Option<Error>,
}

/// What a [`AppVerdict`] holds.
pub struct AppVerdictModel {
    pub authorization: Option<Failure>,
    pub saml: Option<Failure>,
    pub saml_scopes: Set<Seq<char>>,
    pub claims: Option<Failure>,
    pub assurance: Option<Failure>,
}

impl View for AppVerdict {
    type V = AppVerdictModel;

    open spec fn view(&self) -> AppVerdictModel {
        AppVerdictModel {
            authorization: crate::table::opt_view(self.authorization),
            saml: crate::table::opt_view(self.saml),
            saml_scopes: self.saml_scopes@,
            claims: crate::table::opt_view(self.claims),
            assurance: crate::table::opt_view(self.assurance),
        }
    }
}

impl Row for AppVerdict {
    fn dup(&self) -> (r: Self) {
        AppVerdict {
            authorization: crate::table::dup_opt(&self.authorization),
            saml: crate::table::dup_opt(&self.saml),
            saml_scopes: self.saml_scopes.copy(),
            claims: crate::table::dup_opt(&self.claims),
            assurance: crate::table::dup_opt(&self.assurance),
        }
    }
}

/// A client that no browser launches.
pub open spec fn unlisted(c: ClientModel) -> bool {
    (c.settings.app is Some && (c.settings.app->0).hidden) || c.settings.native
        || c.settings.ldap is Some || c.settings.radius is Some
}

/// The scopes that a proxied application can have.
pub open spec fn proxy_scope(s: Seq<char>) -> bool {
    s == "openid"@ || s == "profile"@ || s == "email"@ || s == "groups"@
}

/// The scopes that a launch is judged by.
pub open spec fn launch_scopes(c: ClientModel, v: AppVerdictModel) -> Result<Set<Seq<char>>, Failure> {
    match if c.settings.saml is Some {
        if v.saml is Some {
            Err(v.saml->0)
        } else {
            Ok(v.saml_scopes)
        }
    } else if c.settings.proxy is Some {
        Ok(c.scopes.filter(|s: Seq<char>| proxy_scope(s)))
    } else {
        match grant_check(c, "authorization_code"@) {
            Err(f) => Err(f),
            Ok(_) => Ok(set!["openid"@]),
        }
    } {
        Err(f) => Err(f),
        Ok(s) => match c.settings.app {
            Some(app) => Ok(s.union(app.launch_scopes)),
            None => Ok(s),
        },
    }
}

/// Whether the session may launch the client.
pub open spec fn access_check(c: ClientModel, v: AppVerdictModel) -> Result<(), Failure> {
    if unlisted(c) {
        Err(Failure::Forbidden)
    } else if v.authorization is Some {
        Err(v.authorization->0)
    } else {
        match launch_scopes(c, v) {
            Err(f) => Err(f),
            Ok(_) => if v.claims is Some {
                Err(v.claims->0)
            } else if v.assurance is Some {
                Err(v.assurance->0)
            } else {
                Ok(())
            },
        }
    }
}

#[verifier::loop_isolation(false)]
fn proxy_scopes(scopes: &Names) -> (r: Names)
    ensures
        r@ == scopes@.filter(|s: Seq<char>| proxy_scope(s)),
{
    scopes.listing();
    let ghost all = in_order(scopes@);
    let ghost p = |s: Seq<char>| proxy_scope(s);
    let n: usize = scopes.len();
    let mut out = Names::new();
    let mut i: usize = 0;
    assert(all.take(0).to_set().filter(p) =~= Set::<Seq<char>>::empty());
    while i < n
        invariant
            i <= n,
            out@ == all.take(i as int).to_set().filter(p),
        decreases n - i,
    {
        let s = scopes.at(i).as_str();
        proof {
            lemma_take_set(all, i as int);
        }
        if same(s, "openid") || same(s, "profile") || same(s, "email") || same(s, "groups") {
            out.insert(s);
        }
        assert(out@ =~= all.take(i + 1).to_set().filter(p));
        i = i + 1;
    }
    proof {
        assert(all.take(n as int) =~= all);
        assert(all.to_set() =~= scopes@);
    }
    out
}

/// The scopes that the rules on claims are asked about.
pub fn portal_scopes(client: &Client, verdict: &AppVerdict) -> (r: Result<Names, Error>)
    ensures
        agrees_with(r, launch_scopes(client@, verdict@)),
{
    let mut scopes = if client.settings.saml.is_some() {
        if let Some(e) = &verdict.saml {
            return Err(copy_error(e));
        }
        verdict.saml_scopes.copy()
    } else if client.settings.proxy.is_some() {
        proxy_scopes(&client.scopes)
    } else {
        if let Err(e) = grant_allowed(client, "authorization_code") {
            return Err(e);
        }
        let mut s = Names::new();
        s.insert("openid");
        assert(s@ =~= set!["openid"@]);
        s
    };
    if let Some(app) = &client.settings.app {
        add_all(&mut scopes, &app.launch_scopes);
    }
    Ok(scopes)
}

pub fn portal_access(client: &Client, verdict: &AppVerdict) -> (r: Result<(), Error>)
    ensures
        agrees(r, access_check(client@, verdict@)),
{
    let hidden = match &client.settings.app {
        Some(a) => a.hidden,
        None => false,
    };
    if hidden || client.settings.native || client.settings.ldap.is_some()
        || client.settings.radius.is_some() {
        return Err(Error::Forbidden);
    }
    if let Some(e) = &verdict.authorization {
        return Err(copy_error(e));
    }
    if let Err(e) = portal_scopes(client, verdict) {
        return Err(e);
    }
    if let Some(e) = &verdict.claims {
        return Err(copy_error(e));
    }
    if let Some(e) = &verdict.assurance {
        return Err(copy_error(e));
    }
    Ok(())
}

/// Where a launch leads.
pub open spec fn target_of(c: ClientModel, issuer: Seq<char>) -> Option<Seq<char>> {
    if c.settings.app is Some && (c.settings.app->0).launch_url is Some {
        (c.settings.app->0).launch_url
    } else if c.settings.proxy is Some {
        Some((c.settings.proxy->0).external_origin + "/"@)
    } else if c.settings.saml is Some && (c.settings.saml->0).idp_initiated {
        Some(trim_end_char(issuer, '/') + "/saml/"@ + c.id + "/init"@)
    } else {
        None
    }
}

pub fn portal_target(client: &Client, issuer: &str) -> (r: Option<String>)
    ensures
        opt_text(r) == target_of(client@, issuer@),
{
    if let Some(a) = &client.settings.app {
        if let Some(u) = &a.launch_url {
            return Some(u.clone());
        }
    }
    if let Some(p) = &client.settings.proxy {
        return Some(concat(p.external_origin.as_str(), "/"));
    }
    if let Some(s) = &client.settings.saml {
        if s.idp_initiated {
            let base = trim_end_of(issuer, '/');
            let mut t = concat3(base.as_str(), "/saml/", client.id.as_str());
            t.append("/init");
            return Some(t);
        }
    }
    None
}

/// The launch of a client by the browser of `session`, if it has one.
pub open spec fn launched(
    t: TxModel,
    config: ConfigModel,
    signed_in: bool,
    id: Seq<char>,
    v: AppVerdictModel,
) -> Result<Seq<char>, Failure> {
    if !signed_in {
        Err(Failure::Unauthorized)
    } else if !t.clients.dom().contains(id) {
        Err(Failure::Forbidden)
    } else {
        match access_check(t.clients[id], v) {
            Err(f) => Err(f),
            Ok(_) => match target_of(t.clients[id], config.issuer) {
                Some(u) => Ok(u),
                None => Err(Failure::Missing("This application has no launch URL yet"@)),
            },
        }
    }
}

/// An application as it is listed.
pub struct AppEntry {
    pub id: String,
    pub name: String,
    pub description: String,
    pub category: String,
    pub icon: String,
    pub accent: String,
    pub launch_path: Option<String>,
    pub host: Option<String>,
}

/// What a [`AppEntry`] holds.
pub struct AppEntryModel {
    pub id: Seq<char>,
    pub name: Seq<char>,
    pub description: Seq<char>,
    pub category: Seq<char>,
    pub icon: Seq<char>,
    pub accent: Seq<char>,
    pub launch_path: Option<Seq<char>>,
    pub host: Option<Seq<char>>,
}

impl View for AppEntry {
    type V = AppEntryModel;

    open spec fn view(&self) -> AppEntryModel {
        AppEntryModel {
            id: self.id@,
            name: self.name@,
            description: self.description@,
            category: self.category@,
            icon: self.icon@,
            accent: self.accent@,
            launch_path: crate::text::opt_text(self.launch_path),
            host: crate::text::opt_text(self.host),
        }
    }
}

impl Row for AppEntry {
    fn dup(&self) -> (r: Self) {
        AppEntry {
            id: self.id.clone(),
            name: self.name.clone(),
            description: self.description.clone(),
            category: self.category.clone(),
            icon: self.icon.clone(),
            accent: self.accent.clone(),
            launch_path: crate::text::copy_opt(&self.launch_path),
            host: crate::text::copy_opt(&self.host),
        }
    }
}

pub open spec fn text_or_default(s: Seq<char>, other: Seq<char>) -> Seq<char> {
    if s.len() == 0 {
        other
    } else {
        s
    }
}

/// The listing of an application. `base` is the path of the server.
pub open spec fn entry_of(c: ClientModel, issuer: Seq<char>, base: Seq<char>) -> AppEntryModel {
    let target = target_of(c, issuer);
    let app = c.settings.app;
    AppEntryModel {
        id: c.id,
        name: c.name,
        description: match app {
            Some(a) => a.description,
            None => ""@,
        },
        category: match app {
            Some(a) => text_or_default(a.category, "Workspace"@),
            None => "Workspace"@,
        },
        icon: match app {
            Some(a) => text_or_default(a.icon, "app"@),
            None => "app"@,
        },
        accent: match app {
            Some(a) => text_or_default(a.accent, "violet"@),
            None => "violet"@,
        },
        launch_path: match target {
            Some(_) => Some(base + "apps/launch?client_id="@ + form_encoded(c.id)),
            None => None,
        },
        host: match target {
            Some(t) => match url_of(t) {
                Some(u) => u.host,
                None => None,
            },
            None => None,
        },
    }
}

fn or_default(s: &str, other: &str) -> (r: String)
    ensures
        r@ == text_or_default(s@, other@),
{
    if s.is_empty() {
        other.to_owned()
    } else {
        s.to_owned()
    }
}

fn make_entry(c: &Client, issuer: &str, base: &str) -> (r: AppEntry)
    ensures
        r@ == entry_of(c@, issuer@, base@),
{
    let target = portal_target(c, issuer);
    let (description, category, icon, accent) = match &c.settings.app {
        Some(a) => (
            a.description.clone(),
            or_default(a.category.as_str(), "Workspace"),
            or_default(a.icon.as_str(), "app"),
            or_default(a.accent.as_str(), "violet"),
        ),
        None => (
            "".to_owned(),
            "Workspace".to_owned(),
            "app".to_owned(),
            "violet".to_owned(),
        ),
    };
    let host = match &target {
        Some(t) => match parse_url(t.as_str()) {
            Some(u) => u.host,
            None => None,
        },
        None => None,
    };
    let launch_path = match &target {
        Some(_) => {
            let id = encode_form(c.id.as_str());
            Some(concat3(base, "apps/launch?client_id=", id.as_str()))
        },
        None => None,
    };
    AppEntry {
        id: c.id.clone(),
        name: c.name.clone(),
        description,
        category,
        icon,
        accent,
        launch_path,
        host,
    }
}

/// Applications are listed by their names without regard to case, then by their ids.
pub open spec fn listed_first(a: AppEntryModel, b: AppEntryModel) -> bool {
    text_lt(folded(a.name), folded(b.name)) || (folded(a.name) == folded(b.name) && text_lt(
        a.id,
        b.id,
    ))
}

pub open spec fn entry_added(v: Seq<AppEntryModel>, e: AppEntryModel) -> Seq<AppEntryModel>
    decreases v.len(),
{
    if v.len() > 0 && listed_first(e, v.last()) {
        entry_added(v.drop_last(), e).push(v.last())
    } else {
        v.push(e)
    }
}

proof fn lemma_entry_added(v: Seq<AppEntryModel>, e: AppEntryModel, i: int)
    requires
        0 <= i <= v.len(),
        forall|k: int| i <= k < v.len() ==> listed_first(e, #[trigger] v[k]),
        i > 0 ==> !listed_first(e, v[i - 1]),
    ensures
        entry_added(v, e) == v.insert(i, e),
    decreases v.len(),
{
    if i < v.len() {
        assert(listed_first(e, v[v.len() - 1]));
        let w = v.drop_last();
        assert forall|k: int| i <= k < w.len() implies listed_first(e, #[trigger] w[k]) by {
            assert(w[k] == v[k]);
        }
        lemma_entry_added(w, e, i);
        assert(entry_added(v, e) =~= v.insert(i, e));
    } else {
        assert(entry_added(v, e) =~= v.insert(i, e));
    }
}

fn is_listed_first(a: &AppEntry, b: &AppEntry) -> (r: bool)
    ensures
        r == listed_first(a@, b@),
{
    let x = fold(a.name.as_str());
    let y = fold(b.name.as_str());
    before(x.as_str(), y.as_str()) || (same(x.as_str(), y.as_str()) && before(
        a.id.as_str(),
        b.id.as_str(),
    ))
}

#[verifier::loop_isolation(false)]
fn add_entry(v: &mut Vec<AppEntry>, e: AppEntry)
    ensures
        views(final(v)@) == entry_added(views(old(v)@), e@),
{
    let ghost all = views(v@);
    let mut i: usize = v.len();
    while i > 0 && is_listed_first(&e, &v[i - 1])
        invariant
            i <= v.len(),
            all == views(v@),
            forall|k: int| i <= k < v.len() ==> listed_first(e@, #[trigger] all[k]),
        decreases i,
    {
        assert(all[i - 1] == v[i - 1]@);
        i = i - 1;
    }
    proof {
        if i > 0 {
            assert(all[i - 1] == v[i - 1]@);
        }
        lemma_entry_added(all, e@, i as int);
    }
    let ghost em = e@;
    v.insert(i, e);
    assert(views(v@) =~= all.insert(i as int, em));
}

/// What the rules say of a client; nothing is said of one that is refused for itself.
pub open spec fn verdict_on(verdicts: Map<Seq<char>, AppVerdictModel>, k: Seq<char>) -> AppVerdictModel {
    if verdicts.dom().contains(k) {
        verdicts[k]
    } else {
        AppVerdictModel {
            authorization: Some(Failure::Forbidden),
            saml: None,
            saml_scopes: Set::empty(),
            claims: None,
            assurance: None,
        }
    }
}

/// The applications that the session may launch. A failure of the server fails the whole listing.
pub open spec fn catalogue(
    t: TxModel,
    keys: Seq<Seq<char>>,
    issuer: Seq<char>,
    base: Seq<char>,
    verdicts: Map<Seq<char>, AppVerdictModel>,
) -> Result<Seq<AppEntryModel>, Failure>
    decreases keys.len(),
{
    if keys.len() == 0 {
        Ok(Seq::empty())
    } else {
        match catalogue(t, keys.drop_last(), issuer, base, verdicts) {
            Err(f) => Err(f),
            Ok(v) => match access_check(
                t.clients[keys.last()],
                verdict_on(verdicts, keys.last()),
            ) {
                Err(f) => if status_of(f) >= 500 {
                    Err(f)
                } else {
                    Ok(v)
                },
                Ok(_) => Ok(entry_added(v, entry_of(t.clients[keys.last()], issuer, base))),
            },
        }
    }
}

proof fn lemma_catalogue_fails(
    t: TxModel,
    keys: Seq<Seq<char>>,
    issuer: Seq<char>,
    base: Seq<char>,
    verdicts: Map<Seq<char>, AppVerdictModel>,
    n: int,
)
    requires
        0 <= n <= keys.len(),
        catalogue(t, keys.take(n), issuer, base, verdicts) is Err,
    ensures
        catalogue(t, keys, issuer, base, verdicts) == catalogue(
            t,
            keys.take(n),
            issuer,
            base,
            verdicts,
        ),
    decreases keys.len() - n,
{
    if n < keys.len() {
        assert(keys.take(n + 1).drop_last() =~= keys.take(n));
        lemma_catalogue_fails(t, keys, issuer, base, verdicts, n + 1);
    } else {
        assert(keys.take(n) =~= keys);
    }
}

fn find_verdict(verdicts: &Table<AppVerdict>, k: &str) -> (r: AppVerdict)
    ensures
        r@ == verdict_on(verdicts@, k@),
{
    match verdicts.get(k) {
        Some(v) => v.dup(),
        None => AppVerdict {
            authorization: Some(Error::Forbidden),
            saml: None,
            saml_scopes: Names::new(),
            claims: None,
            assurance: None,
        },
    }
}

impl Core {
    /// Where the browser goes to open a client. `signed_in` tells whether it has a session.
    pub fn portal_launch(&self, tx: &Tx, signed_in: bool, id: &str, verdict: &AppVerdict) -> (r: Result<
        String,
        Error,
    >)
        ensures
            agrees_with(r, launched(tx@, self@.config, signed_in, id@, verdict@)),
    {
        if !signed_in {
            return Err(Error::Unauthorized);
        }
        let client = match tx.clients.get(id) {
            None => return Err(Error::Forbidden),
            Some(c) => c,
        };
        if let Err(e) = portal_access(client, verdict) {
            return Err(e);
        }
        match portal_target(client, self.config.issuer.as_str()) {
            Some(u) => Ok(u),
            None => Err(Error::missing("This application has no launch URL yet")),
        }
    }

    /// The applications of a session. `verdicts` speak of each client by its id.
    #[verifier::loop_isolation(false)]
    pub fn portal_apps(&self, tx: &Tx, base: &str, verdicts: &Table<AppVerdict>) -> (r: Result<
        Vec<AppEntry>,
        Error,
    >)
        ensures
            match catalogue(
                tx@,
                in_order(tx@.clients.dom()),
                self@.config.issuer,
                base@,
                verdicts@,
            ) {
                Ok(v) => r is Ok && views(r->Ok_0@) == v,
                Err(f) => fails(r, f),
            },
    {
        let keys = tx.clients.keys();
        let ghost all = in_order(keys@);
        let ghost issuer = self@.config.issuer;
        let n: usize = keys.len();
        let mut out: Vec<AppEntry> = Vec::new();
        let mut i: usize = 0;
        assert(all.take(0) =~= Seq::<Seq<char>>::empty());
        assert(views(out@) =~= Seq::<AppEntryModel>::empty());
        while i < n
            invariant
                i <= n,
                catalogue(tx@, all.take(i as int), issuer, base@, verdicts@) == Ok::<
                    Seq<AppEntryModel>,
                    Failure,
                >(views(out@)),
            decreases n - i,
        {
            proof {
                assert(all.take(i + 1).drop_last() =~= all.take(i as int));
            }
            let key = keys.at(i).as_str();
            if let Some(c) = tx.clients.get(key) {
                let v = find_verdict(verdicts, key);
                match portal_access(c, &v) {
                    Err(e) => {
                        if e.status() >= 500 {
                            proof {
                                lemma_catalogue_fails(
                                    tx@,
                                    all,
                                    issuer,
                                    base@,
                                    verdicts@,
                                    i + 1,
                                );
                            }
                            return Err(e);
                        }
                    },
                    Ok(_) => {
                        let e = make_entry(c, self.config.issuer.as_str(), base);
                        add_entry(&mut out, e);
                    },
                }
            }
            i = i + 1;
        }
        assert(all.take(n as int) =~= all);
        Ok(out)
    }
}

proof fn lemma_entry_kept(v: Seq<AppEntryModel>, e: AppEntryModel)
    ensures
        forall|x: AppEntryModel| #[trigger]
            entry_added(v, e).contains(x) <==> v.contains(x) || x == e,
    decreases v.len(),
{
    let all = entry_added(v, e);
    if v.len() > 0 && listed_first(e, v.last()) {
        let w = v.drop_last();
        lemma_entry_kept(w, e);
        let x0 = entry_added(w, e);
        assert forall|x: AppEntryModel| #[trigger] all.contains(x) <==> v.contains(x) || x == e by {
            if all.contains(x) {
                let i = all.index_of(x);
                if i < x0.len() {
                    assert(x0[i] == x);
                    assert(x0.contains(x));
                    if x != e {
                        let j = w.index_of(x);
                        assert(v[j] == x);
                    }
                } else {
                    assert(v[v.len() - 1] == x);
                }
            }
            if v.contains(x) {
                let i = v.index_of(x);
                if i < w.len() {
                    assert(w[i] == x);
                    assert(x0.contains(x));
                    let j = x0.index_of(x);
                    assert(all[j] == x);
                } else {
                    assert(all[x0.len() as int] == x);
                }
            }
            if x == e {
                assert(x0.contains(x));
                let j = x0.index_of(x);
                assert(all[j] == x);
            }
        }
    } else {
        assert forall|x: AppEntryModel| #[trigger] all.contains(x) <==> v.contains(x) || x == e by {
            if all.contains(x) {
                let i = all.index_of(x);
                if i < v.len() {
                    assert(v[i] == x);
                }
            }
            if v.contains(x) {
                let i = v.index_of(x);
                assert(all[i] == x);
            }
            assert(all[v.len() as int] == e);
        }
    }
}

/// What is listed can be launched: every listed application with a target opens for the same
/// verdicts.
pub proof fn listed_applications_can_be_launched(
    t: TxModel,
    config: ConfigModel,
    keys: Seq<Seq<char>>,
    base: Seq<char>,
    verdicts: Map<Seq<char>, AppVerdictModel>,
    e: AppEntryModel,
)
    requires
        catalogue(t, keys, config.issuer, base, verdicts) is Ok,
        (catalogue(t, keys, config.issuer, base, verdicts)->Ok_0).contains(e),
        forall|i: int|
            0 <= i < keys.len() ==> t.clients.dom().contains(#[trigger] keys[i])
                && t.clients[keys[i]].id == keys[i],
        e.launch_path is Some,
    ensures
        launched(t, config, true, e.id, verdict_on(verdicts, e.id)) is Ok,
    decreases keys.len(),
{
    if keys.len() > 0 {
        let rest = keys.drop_last();
        assert forall|i: int| 0 <= i < rest.len() implies t.clients.dom().contains(#[trigger] rest[i])
            && t.clients[rest[i]].id == rest[i] by {
            assert(rest[i] == keys[i]);
        }
        let v = catalogue(t, rest, config.issuer, base, verdicts)->Ok_0;
        let k = keys.last();
        assert(t.clients.dom().contains(keys[keys.len() - 1]));
        if access_check(t.clients[k], verdict_on(verdicts, k)) is Ok {
            lemma_entry_kept(v, entry_of(t.clients[k], config.issuer, base));
            if v.contains(e) {
                listed_applications_can_be_launched(t, config, rest, base, verdicts, e);
            }
        } else {
            listed_applications_can_be_launched(t, config, rest, base, verdicts, e);
        }
    }
}

/// An application opens for a user whom every policy admits, at the address that its settings give;
/// hidden and native applications, and those of other protocols, open for nobody.
pub proof fn applications_open_where_they_say(
    t: TxModel,
    config: ConfigModel,
    id: Seq<char>,
    v: AppVerdictModel,
)
    requires
        t.clients.dom().contains(id),
        t.clients[id].settings.saml is None,
        t.clients[id].settings.proxy is None,
        t.clients[id].settings.allowed_grants.contains("authorization_code"@),
        t.clients[id].settings.app is Some,
    ensures
        ({
            let c = t.clients[id];
            let app = c.settings.app->0;
            &&& launched(t, config, true, id, v) is Ok <==> {
                &&& !app.hidden && !c.settings.native
                &&& c.settings.ldap is None && c.settings.radius is None
                &&& v.authorization is None && v.claims is None && v.assurance is None
                &&& app.launch_url is Some
            }
            &&& launched(t, config, true, id, v) matches Ok(u) ==> Some(u) == app.launch_url
            &&& launched(t, config, false, id, v) is Err
        }),
{
}

/// A proxied application without an address of its own opens at its origin.
pub proof fn proxied_applications_open_at_their_origin(c: ClientModel, issuer: Seq<char>)
    requires
        c.settings.app is None,
        c.settings.proxy is Some,
    ensures
        target_of(c, issuer) == Some((c.settings.proxy->0).external_origin + "/"@),
{
}

/// An entry of the catalogue shows the application as its owner describes it.
pub proof fn entries_show_the_application(c: ClientModel, issuer: Seq<char>, base: Seq<char>)
    requires
        c.settings.app is Some,
    ensures
        ({
            let e = entry_of(c, issuer, base);
            let app = c.settings.app->0;
            &&& e.id == c.id && e.name == c.name && e.description == app.description
            &&& app.category.len() > 0 ==> e.category == app.category
            &&& app.category.len() == 0 ==> e.category == "Workspace"@
            &&& app.icon.len() > 0 ==> e.icon == app.icon
            &&& app.icon.len() == 0 ==> e.icon == "app"@
            &&& app.accent.len() > 0 ==> e.accent == app.accent
            &&& app.accent.len() == 0 ==> e.accent == "violet"@
            &&& app.launch_url is Some ==> e.launch_path == Some(
                base + "apps/launch?client_id="@ + form_encoded(c.id),
            )
        }),
{
}

/// Every application that a user may open is in the catalogue, and no other.
pub proof fn the_catalogue_lists_what_can_be_opened(
    t: TxModel,
    keys: Seq<Seq<char>>,
    issuer: Seq<char>,
    base: Seq<char>,
    verdicts: Map<Seq<char>, AppVerdictModel>,
    e: AppEntryModel,
)
    requires
        catalogue(t, keys, issuer, base, verdicts) is Ok,
    ensures
        (catalogue(t, keys, issuer, base, verdicts)->Ok_0).contains(e) <==> exists|i: int|
            0 <= i < keys.len() && access_check(
                t.clients[#[trigger] keys[i]],
                verdict_on(verdicts, keys[i]),
            ) is Ok && e == entry_of(t.clients[keys[i]], issuer, base),
    decreases keys.len(),
{
    if keys.len() > 0 {
        let front = keys.drop_last();
        the_catalogue_lists_what_can_be_opened(t, front, issuer, base, verdicts, e);
        let v = catalogue(t, front, issuer, base, verdicts)->Ok_0;
        let x = entry_of(t.clients[keys.last()], issuer, base);
        lemma_an_added_entry(v, x, e);
        assert(forall|i: int| 0 <= i < front.len() ==> front[i] == keys[i]);
        if exists|i: int|
            0 <= i < front.len() && access_check(
                t.clients[#[trigger] front[i]],
                verdict_on(verdicts, front[i]),
            ) is Ok && e == entry_of(t.clients[front[i]], issuer, base) {
            let i = choose|i: int|
                0 <= i < front.len() && access_check(
                    t.clients[#[trigger] front[i]],
                    verdict_on(verdicts, front[i]),
                ) is Ok && e == entry_of(t.clients[front[i]], issuer, base);
            assert(keys[i] == front[i]);
        }
        if exists|i: int|
            0 <= i < keys.len() && access_check(
                t.clients[#[trigger] keys[i]],
                verdict_on(verdicts, keys[i]),
            ) is Ok && e == entry_of(t.clients[keys[i]], issuer, base) {
            let i = choose|i: int|
                0 <= i < keys.len() && access_check(
                    t.clients[#[trigger] keys[i]],
                    verdict_on(verdicts, keys[i]),
                ) is Ok && e == entry_of(t.clients[keys[i]], issuer, base);
            if i < front.len() {
                assert(front[i] == keys[i]);
            }
        }
        assert(keys.last() == keys[keys.len() - 1]);
    }
}

proof fn lemma_an_added_entry(v: Seq<AppEntryModel>, x: AppEntryModel, e: AppEntryModel)
    ensures
        entry_added(v, x).contains(e) <==> v.contains(e) || e == x,
    decreases v.len(),
{
    if v.len() > 0 && listed_first(x, v.last()) {
        let d = v.drop_last();
        lemma_an_added_entry(d, x, e);
        let w = entry_added(d, x);
        assert(w.push(v.last()).contains(e) <==> w.contains(e) || e == v.last()) by {
            if w.contains(e) {
                let i = w.index_of(e);
                assert(w.push(v.last())[i] == e);
            }
            assert(w.push(v.last())[w.len() as int] == v.last());
        }
        assert(v.contains(e) <==> d.contains(e) || e == v.last()) by {
            if d.contains(e) {
                let i = d.index_of(e);
                assert(v[i] == e);
            }
            if v.contains(e) {
                let i = v.index_of(e);
                if i < d.len() {
                    assert(d[i] == e);
                }
            }
            assert(v[v.len() - 1] == v.last());
        }
    } else {
        if v.contains(e) {
            let i = v.index_of(e);
            assert(v.push(x)[i] == e);
        }
        assert(v.push(x)[v.len() as int] == x);
    }
}

} // verus!
