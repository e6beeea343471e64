//! What a search finds.
use crate::error::{Error, Failure, agrees_with, fails};
use crate::ldap_server::filter::{Entry, EntryAttribute, EntryAttributeModel, EntryModel, Filter, FilterModel, filter_check, filter_matches, matches_filter, validate_filter};
use crate::model::{Client, ClientModel, User, UserModel};
use crate::names::{Names, finite_sets_are_listed, in_order, lemma_lt_irreflexive, lemma_lt_total, lemma_lt_transitive};
use crate::oidc::{active_client, get_client};
use crate::rules::{Rules, RulesModel};
use crate::store::{Tx, TxModel};
use crate::table::{Row, Table, position, views};
use crate::text::{before, byte_count, byte_len, chars_of, concat, concat3, ends_with, has_char, has_prefix, has_suffix, lower, lowercase, opt_text, parts, same, same_ignoring_case, slice_of, split, strip_prefix, text_lt, texts};
use crate::ldap_server::{Settings, SettingsModel, settings_check};
use vstd::prelude::*;
use vstd::string::*;

verus! {

pub const STARTTLS: &'static str = "1.3.6.1.4.1.1466.20037";

pub const WHOAMI: &'static str = "1.3.6.1.4.1.4203.1.11.3";

pub const PAGED: &'static str = "1.2.840.113556.1.4.319";

/// How far below its base a search reaches.
#[derive(Clone, Copy, PartialEq, Eq, Structural, Debug)]
pub enum Scope {
    Base,
    OneLevel,
    Subtree,
    Children,
}

/// A search request.
pub struct SearchRequest {
    pub base: String,
    pub scope: Scope,
    /// Aliases are never dereferenced.
    pub never_alias: bool,
    pub sizelimit: i32,
    pub timelimit: i32,
    pub typesonly: bool,
    pub filter: Filter,
    pub attrs: Vec<String>,
}

/// What a [`SearchRequest`] holds.
pub struct SearchModel {
    pub base: Seq<char>,
    pub scope: Scope,
    pub never_alias: bool,
    pub sizelimit: i32,
    pub timelimit: i32,
    pub typesonly: bool,
    pub filter: FilterModel,
    pub attrs: Seq<Seq<char>>,
}

impl View for SearchRequest {
    type V = SearchModel;

    open spec fn view(&self) -> SearchModel {
        SearchModel {
            base: self.base@,
            scope: self.scope,
            never_alias: self.never_alias,
            sizelimit: self.sizelimit,
            timelimit: self.timelimit,
            typesonly: self.typesonly,
            filter: self.filter@,
            attrs: texts(self.attrs@),
        }
    }
}

/// Whom a search is made for, once the session or the agent was checked.
pub enum Viewer {
    /// Nobody has bound.
    Anonymous,
    /// The directory agent, which sees every selected user.
    Agent,
    /// The user with this id, who sees only themselves.
    User(String),
    /// The bound session or agent no longer stands.
    Refused,
}

/// What a [`Viewer`] holds.
pub enum ViewerModel {
    Anonymous,
    Agent,
    User(Seq<char>),
    Refused,
}

impl View for Viewer {
    type V = ViewerModel;

    open spec fn view(&self) -> ViewerModel {
        match *self {
            Viewer::Anonymous => ViewerModel::Anonymous,
            Viewer::Agent => ViewerModel::Agent,
            Viewer::User(id) => ViewerModel::User(id@),
            Viewer::Refused => ViewerModel::Refused,
        }
    }
}

/// The name of a user in the directory.
pub open spec fn user_name(s: SettingsModel, name: Seq<char>) -> Seq<char> {
    "uid="@ + name + ",ou=users,"@ + s.base_dn
}

/// The name of a group in the directory.
pub open spec fn group_name(s: SettingsModel, name: Seq<char>) -> Seq<char> {
    "cn="@ + name + ",ou=groups,"@ + s.base_dn
}

/// The name of the directory agent.
pub open spec fn agent_name(s: SettingsModel) -> Seq<char> {
    "cn=riauth-agent,"@ + s.base_dn
}

impl Settings {
    pub fn user_dn(&self, name: &str) -> (r: String)
        ensures
            r@ == user_name(self@, name@),
    {
        let mut r = concat3("uid=", name, ",ou=users,");
        r.append(self.base_dn.as_str());
        r
    }

    pub fn group_dn(&self, name: &str) -> (r: String)
        ensures
            r@ == group_name(self@, name@),
    {
        let mut r = concat3("cn=", name, ",ou=groups,");
        r.append(self.base_dn.as_str());
        r
    }

    pub fn agent_dn(&self) -> (r: String)
        ensures
            r@ == agent_name(self@),
    {
        concat("cn=riauth-agent,", self.base_dn.as_str())
    }
}

/// A search group that does not exist.
pub open spec fn missing_group(t: TxModel, s: SettingsModel) -> bool {
    exists|g: Seq<char>| #[trigger] s.search_groups.contains(g) && !t.groups.dom().contains(g)
}

/// The directory that a client serves, or why it is not served.
pub open spec fn directory(t: TxModel, cid: Seq<char>, rules: RulesModel) -> Result<
    (ClientModel, SettingsModel),
    Failure,
> {
    if !active_client(t, cid) || t.clients[cid].settings.ldap is None {
        Err(Failure::Forbidden)
    } else {
        let c = t.clients[cid];
        let s = c.settings.ldap->0;
        match settings_check(s, c, rules) {
            Err(f) => Err(f),
            Ok(_) => if missing_group(t, s) {
                Err(Failure::Bad("LDAP search group does not exist"@))
            } else {
                Ok((c, s))
            },
        }
    }
}

#[verifier::loop_isolation(false)]
pub fn profile(tx: &Tx, cid: &str, rules: &Rules) -> (r: Result<(Client, Settings), Error>)
    ensures
        match directory(tx@, cid@, rules@) {
            Ok(p) => r is Ok && (r->Ok_0).0@ == p.0 && (r->Ok_0).1@ == p.1,
            Err(f) => fails(r, f),
        },
{
    let client = match get_client(tx, cid) {
        Ok(c) => c,
        Err(_) => return Err(Error::Forbidden),
    };
    let settings = match &client.settings.ldap {
        Some(s) => s.dup(),
        None => return Err(Error::Forbidden),
    };
    if let Err(e) = settings.validate(&client, rules) {
        return Err(e);
    }
    settings.search_groups.listing();
    let ghost all = in_order(settings@.search_groups);
    let n: usize = settings.search_groups.len();
    let mut i: usize = 0;
    while i < n
        invariant
            i <= n,
            forall|j: int| 0 <= j < i ==> tx@.groups.dom().contains(#[trigger] all[j]),
        decreases n - i,
    {
        let g = settings.search_groups.at(i);
        if !tx.groups.has(g.as_str()) {
            assert(settings@.search_groups.contains(g@));
            return Err(Error::bad("LDAP search group does not exist"));
        }
        i = i + 1;
    }
    proof {
        assert forall|g: Seq<char>| #[trigger] settings@.search_groups.contains(g) implies tx@.groups.dom().contains(
            g,
        ) by {
            assert(all.contains(g));
            let j = all.index_of(g);
            assert(all[j] == g);
        }
    }
    Ok((client, settings))
}

/// An attribute with these values, where there are any.
pub open spec fn with_values(a: Seq<EntryAttributeModel>, name: Seq<char>, vals: Seq<Seq<char>>) -> Seq<
    EntryAttributeModel,
> {
    if vals.len() == 0 {
        a
    } else {
        a.push(EntryAttributeModel { name, vals })
    }
}

fn add_values(a: &mut Vec<EntryAttribute>, name: &str, vals: Vec<String>)
    ensures
        views(final(a)@) == with_values(views(old(a)@), name@, texts(vals@)),
{
    let ghost was = views(a@);
    assert(texts(vals@).len() == vals.len());
    if vals.len() > 0 {
        let ghost v = texts(vals@);
        a.push(EntryAttribute { name: name.to_owned(), vals });
        assert(views(a@) =~= was.push(EntryAttributeModel { name: name@, vals: v }));
    }
}

fn add_value(a: &mut Vec<EntryAttribute>, name: &str, val: &str)
    ensures
        views(final(a)@) == with_values(views(old(a)@), name@, seq![val@]),
{
    let mut v: Vec<String> = Vec::new();
    v.push(val.to_owned());
    assert(texts(v@) =~= seq![val@]);
    add_values(a, name, v);
}

fn list2(a: &str, b: &str) -> (v: Vec<String>)
    ensures
        texts(v@) == seq![a@, b@],
{
    let mut v: Vec<String> = Vec::new();
    v.push(a.to_owned());
    v.push(b.to_owned());
    assert(texts(v@) =~= seq![a@, b@]);
    v
}

fn no_attributes() -> (v: Vec<EntryAttribute>)
    ensures
        views(v@) == Seq::<EntryAttributeModel>::empty(),
{
    let v: Vec<EntryAttribute> = Vec::new();
    assert(views(v@) =~= Seq::<EntryAttributeModel>::empty());
    v
}

/// What the server says of itself.
pub open spec fn root_entry(s: SettingsModel, starttls: bool) -> EntryModel {
    let none = Seq::<EntryAttributeModel>::empty();
    EntryModel {
        dn: ""@,
        attributes: with_values(
            with_values(
                with_values(
                    with_values(
                        with_values(none, "objectClass"@, seq!["top"@]),
                        "namingContexts"@,
                        seq![s.base_dn],
                    ),
                    "supportedLDAPVersion"@,
                    seq!["3"@],
                ),
                "supportedExtension"@,
                if starttls {
                    seq![STARTTLS@, WHOAMI@]
                } else {
                    seq![WHOAMI@]
                },
            ),
            "supportedControl"@,
            seq![PAGED@],
        ),
    }
}

fn make_root(settings: &Settings, starttls: bool) -> (e: Entry)
    ensures
        e@ == root_entry(settings@, starttls),
{
    let mut a = no_attributes();
    add_value(&mut a, "objectClass", "top");
    add_value(&mut a, "namingContexts", settings.base_dn.as_str());
    add_value(&mut a, "supportedLDAPVersion", "3");
    if starttls {
        add_values(&mut a, "supportedExtension", list2(STARTTLS, WHOAMI));
    } else {
        add_value(&mut a, "supportedExtension", WHOAMI);
    }
    add_value(&mut a, "supportedControl", PAGED);
    Entry { dn: "".to_owned(), attributes: a }
}

/// The first component of the base, without what names it.
pub open spec fn first_component(s: SettingsModel) -> Seq<char> {
    let first = parts(s.base_dn, ',')[0];
    strip_all(first, "dc="@)
}

/// `s` without the prefix `p`, however often it stands there.
pub open spec fn strip_all(s: Seq<char>, p: Seq<char>) -> Seq<char>
    decreases s.len(),
{
    if p.len() > 0 && has_prefix(s, p) {
        strip_all(s.skip(p.len() as int), p)
    } else {
        s
    }
}

fn strip_every(s: &str, p: &str) -> (r: String)
    requires
        p@.len() > 0,
    ensures
        r@ == strip_all(s@, p@),
    decreases s@.len(),
{
    match strip_prefix(s, p) {
        Some(t) => strip_every(t.as_str(), p),
        None => s.to_owned(),
    }
}

/// The base and the two containers below it.
pub open spec fn fixed_entries(s: SettingsModel) -> Seq<EntryModel> {
    let none = Seq::<EntryAttributeModel>::empty();
    seq![
        EntryModel {
            dn: s.base_dn,
            attributes: with_values(
                with_values(none, "objectClass"@, seq!["top"@, "domain"@]),
                "dc"@,
                seq![first_component(s)],
            ),
        },
        container(s, "users"@),
        container(s, "groups"@),
    ]
}

pub open spec fn container(s: SettingsModel, ou: Seq<char>) -> EntryModel {
    let none = Seq::<EntryAttributeModel>::empty();
    EntryModel {
        dn: "ou="@ + ou + ","@ + s.base_dn,
        attributes: with_values(
            with_values(none, "objectClass"@, seq!["top"@, "organizationalUnit"@]),
            "ou"@,
            seq![ou],
        ),
    }
}

fn make_container(settings: &Settings, ou: &str) -> (e: Entry)
    ensures
        e@ == container(settings@, ou@),
{
    let mut a = no_attributes();
    add_values(&mut a, "objectClass", list2("top", "organizationalUnit"));
    add_value(&mut a, "ou", ou);
    let mut dn = concat3("ou=", ou, ",");
    dn.append(settings.base_dn.as_str());
    Entry { dn, attributes: a }
}

fn make_fixed(settings: &Settings) -> (v: Vec<Entry>)
    ensures
        views(v@) == fixed_entries(settings@),
{
    let list = split(settings.base_dn.as_str(), ',');
    proof {
        reveal_strlit("dc=");
        assert(texts(list@)[0] == list@[0]@);
    }
    let dc = strip_every(list[0].as_str(), "dc=");
    let mut a = no_attributes();
    add_values(&mut a, "objectClass", list2("top", "domain"));
    add_value(&mut a, "dc", dc.as_str());
    let mut v: Vec<Entry> = Vec::new();
    v.push(Entry { dn: settings.base_dn.clone(), attributes: a });
    v.push(make_container(settings, "users"));
    v.push(make_container(settings, "groups"));
    assert(views(v@) =~= fixed_entries(settings@));
    v
}

/// The users in the search groups.
pub open spec fn in_search_groups(t: TxModel, s: SettingsModel, id: Seq<char>) -> bool {
    exists|g: Seq<char>| #[trigger]
        t.groups.dom().contains(g) && s.search_groups.contains(g) && t.groups[g].members.contains(id)
}

/// The user stored under `k` is shown to the viewer.
pub open spec fn shown_user(t: TxModel, s: SettingsModel, viewer: ViewerModel) -> spec_fn(
    Seq<char>,
) -> bool {
    |k: Seq<char>|
        t.users[k].enabled && in_search_groups(t, s, t.users[k].id) && (viewer matches ViewerModel::User(me)
            ==> me == t.users[k].id)
}

/// The users that are shown, in order.
pub open spec fn shown_users(t: TxModel, s: SettingsModel, viewer: ViewerModel) -> Seq<Seq<char>> {
    in_order(t.users.dom()).filter(shown_user(t, s, viewer))
}

#[verifier::loop_isolation(false)]
fn is_in_search_groups(tx: &Tx, settings: &Settings, id: &str) -> (r: bool)
    ensures
        r == in_search_groups(tx@, settings@, id@),
{
    tx.groups.listing();
    let mut i: usize = 0;
    while i < tx.groups.len()
        invariant
            i <= tx.groups.entries().len(),
            forall|j: int|
                0 <= j < i ==> !(settings@.search_groups.contains((#[trigger] tx.groups.entries()[j]).0)
                    && tx.groups.entries()[j].1.members.contains(id@)),
        decreases tx.groups.entries().len() - i,
    {
        let ghost k = tx.groups.entries()[i as int].0;
        if settings.search_groups.contains(tx.groups.key_at(i).as_str()) && tx.groups.row_at(
            i,
        ).members.contains(id) {
            assert(tx@.groups.dom().contains(k));
            return true;
        }
        i = i + 1;
    }
    proof {
        assert forall|g: Seq<char>| #[trigger] tx@.groups.dom().contains(g) implies !(
        settings@.search_groups.contains(g) && tx@.groups[g].members.contains(id@)) by {
            let j = position(tx.groups.entries(), g);
            assert(tx.groups.entries()[j].0 == g);
        }
    }
    false
}

#[verifier::loop_isolation(false)]
fn select_users(tx: &Tx, settings: &Settings, viewer: &Viewer) -> (r: Vec<String>)
    ensures
        texts(r@) == shown_users(tx@, settings@, viewer@),
        forall|i: int| 0 <= i < r.len() ==> tx@.users.dom().contains((#[trigger] r@[i])@),
{
    let keys = tx.users.keys();
    let ghost all = in_order(keys@);
    let ghost p = shown_user(tx@, settings@, viewer@);
    let n: usize = keys.len();
    let mut r: Vec<String> = Vec::new();
    let mut i: usize = 0;
    assert(texts(r@) =~= all.take(0).filter(p));
    while i < n
        invariant
            i <= n,
            texts(r@) == all.take(i as int).filter(p),
            forall|j: int| 0 <= j < r.len() ==> tx@.users.dom().contains((#[trigger] r@[j])@),
        decreases n - i,
    {
        let k = keys.at(i);
        let ghost was = texts(r@);
        proof {
            assert(all.take(i + 1) =~= all.take(i as int).push(k@));
            all.take(i as int).lemma_filter_push(k@, p);
        }
        if let Some(u) = tx.users.get(k.as_str()) {
            let own = match viewer {
                Viewer::User(me) => same(me.as_str(), u.id.as_str()),
                _ => true,
            };
            if u.enabled && is_in_search_groups(tx, settings, u.id.as_str()) && own {
                r.push(k.clone());
                assert(texts(r@) =~= was.push(k@));
            }
        }
        i = i + 1;
    }
    assert(all.take(i as int) =~= all);
    r
}

/// The group names of a user as directory names.
pub open spec fn group_names(s: SettingsModel, groups: Seq<Seq<char>>) -> Seq<Seq<char>> {
    groups.map_values(|g: Seq<char>| group_name(s, g))
}

/// The durable groups of a user.
pub open spec fn memberships_of(m: Map<Seq<char>, Set<Seq<char>>>, id: Seq<char>) -> Set<Seq<char>> {
    if m.dom().contains(id) {
        m[id]
    } else {
        Set::empty()
    }
}

/// A user's entry.
pub open spec fn user_entry(
    c: ClientModel,
    s: SettingsModel,
    u: UserModel,
    groups: Set<Seq<char>>,
) -> EntryModel {
    let none = Seq::<EntryAttributeModel>::empty();
    let base = with_values(
        with_values(
            with_values(
                with_values(
                    with_values(
                        with_values(
                            none,
                            "objectClass"@,
                            seq![
                                "top"@,
                                "person"@,
                                "organizationalPerson"@,
                                "inetOrgPerson"@,
                            ],
                        ),
                        "uid"@,
                        seq![u.username],
                    ),
                    "cn"@,
                    seq![u.display_name],
                ),
                "sn"@,
                seq![u.display_name],
            ),
            "displayName"@,
            seq![u.display_name],
        ),
        "entryUUID"@,
        seq![u.id],
    );
    let with_mail = if c.scopes.contains("email"@) && u.email is Some {
        with_values(base, "mail"@, seq![u.email->0])
    } else {
        base
    };
    EntryModel {
        dn: user_name(s, u.username),
        attributes: if c.scopes.contains("groups"@) {
            with_values(with_mail, "memberOf"@, group_names(s, in_order(groups)))
        } else {
            with_mail
        },
    }
}

#[verifier::loop_isolation(false)]
fn make_group_names(settings: &Settings, groups: &Names) -> (v: Vec<String>)
    ensures
        texts(v@) == group_names(settings@, in_order(groups@)),
{
    let ghost all = in_order(groups@);
    let n: usize = groups.len();
    let mut v: Vec<String> = Vec::new();
    let mut i: usize = 0;
    assert(texts(v@) =~= group_names(settings@, all.take(0)));
    while i < n
        invariant
            i <= n,
            texts(v@) == group_names(settings@, all.take(i as int)),
        decreases n - i,
    {
        let ghost was = texts(v@);
        let g = groups.at(i);
        v.push(settings.group_dn(g.as_str()));
        proof {
            assert(texts(v@) =~= was.push(group_name(settings@, g@)));
            assert(all.take(i + 1) =~= all.take(i as int).push(g@));
            assert(group_names(settings@, all.take(i + 1)) =~= was.push(group_name(settings@, g@)));
        }
        i = i + 1;
    }
    assert(all.take(i as int) =~= all);
    v
}

fn make_user(client: &Client, settings: &Settings, user: &User, groups: &Names) -> (e: Entry)
    ensures
        e@ == user_entry(client@, settings@, user@, groups@),
{
    let mut classes: Vec<String> = Vec::new();
    classes.push("top".to_owned());
    classes.push("person".to_owned());
    classes.push("organizationalPerson".to_owned());
    classes.push("inetOrgPerson".to_owned());
    assert(texts(classes@) =~= seq!["top"@, "person"@, "organizationalPerson"@, "inetOrgPerson"@]);
    let mut a = no_attributes();
    add_values(&mut a, "objectClass", classes);
    add_value(&mut a, "uid", user.username.as_str());
    add_value(&mut a, "cn", user.display_name.as_str());
    add_value(&mut a, "sn", user.display_name.as_str());
    add_value(&mut a, "displayName", user.display_name.as_str());
    add_value(&mut a, "entryUUID", user.id.as_str());
    if let Some(mail) = &user.email {
        if client.scopes.contains("email") {
            add_value(&mut a, "mail", mail.as_str());
        }
    }
    if client.scopes.contains("groups") {
        add_values(&mut a, "memberOf", make_group_names(settings, groups));
    }
    Entry { dn: settings.user_dn(user.username.as_str()), attributes: a }
}

/// Entries and the names that they have taken, in lower case.
pub struct Listing {
    pub rows: Seq<EntryModel>,
    pub taken: Set<Seq<char>>,
}

/// The users' entries, or the collision of two names.
pub open spec fn user_entries(
    t: TxModel,
    c: ClientModel,
    s: SettingsModel,
    m: Map<Seq<char>, Set<Seq<char>>>,
    keys: Seq<Seq<char>>,
) -> Result<Listing, Failure>
    decreases keys.len(),
{
    if keys.len() == 0 {
        Ok(Listing { rows: Seq::empty(), taken: Set::empty() })
    } else {
        match user_entries(t, c, s, m, keys.drop_last()) {
            Err(f) => Err(f),
            Ok(l) => {
                let u = t.users[keys.last()];
                let dn = lower(user_name(s, u.username));
                if l.taken.contains(dn) {
                    Err(
                        Failure::Conflict("LDAP DNs collide under case-insensitive matching"@),
                    )
                } else {
                    Ok(
                        Listing {
                            rows: l.rows.push(user_entry(c, s, u, memberships_of(m, u.id))),
                            taken: l.taken.insert(dn),
                        },
                    )
                }
            },
        }
    }
}

/// The directory names of the members of a group that are shown.
pub open spec fn member_names(
    t: TxModel,
    s: SettingsModel,
    members: Seq<Seq<char>>,
    shown: Seq<Seq<char>>,
) -> Seq<Seq<char>>
    decreases members.len(),
{
    if members.len() == 0 {
        Seq::empty()
    } else {
        let rest = member_names(t, s, members.drop_last(), shown);
        match shown_name(t, members.last(), shown) {
            Some(name) => rest.push(user_name(s, name)),
            None => rest,
        }
    }
}

/// The name of the last shown user with this id.
pub open spec fn shown_name(t: TxModel, id: Seq<char>, shown: Seq<Seq<char>>) -> Option<Seq<char>>
    decreases shown.len(),
{
    if shown.len() == 0 {
        None
    } else if t.users[shown.last()].id == id {
        Some(t.users[shown.last()].username)
    } else {
        shown_name(t, id, shown.drop_last())
    }
}

/// A group's entry.
pub open spec fn group_entry(s: SettingsModel, name: Seq<char>, members: Seq<Seq<char>>) -> EntryModel {
    let none = Seq::<EntryAttributeModel>::empty();
    EntryModel {
        dn: group_name(s, name),
        attributes: with_values(
            with_values(
                with_values(none, "objectClass"@, seq!["top"@, "groupOfNames"@]),
                "cn"@,
                seq![name],
            ),
            "member"@,
            members,
        ),
    }
}

/// The entries with those of the groups that have shown members, or the collision of two names.
pub open spec fn group_entries(
    t: TxModel,
    s: SettingsModel,
    shown: Seq<Seq<char>>,
    keys: Seq<Seq<char>>,
    start: Listing,
) -> Result<Listing, Failure>
    decreases keys.len(),
{
    if keys.len() == 0 {
        Ok(start)
    } else {
        match group_entries(t, s, shown, keys.drop_last(), start) {
            Err(f) => Err(f),
            Ok(l) => {
                let name = keys.last();
                let members = member_names(t, s, in_order(t.groups[name].members), shown);
                let dn = lower(group_name(s, name));
                if members.len() == 0 {
                    Ok(l)
                } else if l.taken.contains(dn) {
                    Err(Failure::Conflict("LDAP group DNs collide"@))
                } else {
                    Ok(
                        Listing {
                            rows: l.rows.push(group_entry(s, name, members)),
                            taken: l.taken.insert(dn),
                        },
                    )
                }
            },
        }
    }
}

/// Every entry that the viewer may see.
pub open spec fn all_entries(
    t: TxModel,
    c: ClientModel,
    s: SettingsModel,
    m: Map<Seq<char>, Set<Seq<char>>>,
    viewer: ViewerModel,
) -> Result<Seq<EntryModel>, Failure> {
    let shown = shown_users(t, s, viewer);
    if shown.len() > 2000 {
        Err(Failure::Bad("LDAP profile supports at most 2000 selected users"@))
    } else {
        match user_entries(t, c, s, m, shown) {
            Err(f) => Err(f),
            Ok(l) => {
                let start = Listing { rows: fixed_entries(s) + l.rows, taken: l.taken };
                if c.scopes.contains("groups"@) {
                    match group_entries(t, s, shown, in_order(t.groups.dom()), start) {
                        Err(f) => Err(f),
                        Ok(g) => Ok(g.rows),
                    }
                } else {
                    Ok(start.rows)
                }
            },
        }
    }
}

proof fn lemma_users_fail(
    t: TxModel,
    c: ClientModel,
    s: SettingsModel,
    m: Map<Seq<char>, Set<Seq<char>>>,
    keys: Seq<Seq<char>>,
    n: int,
)
    requires
        0 <= n <= keys.len(),
        user_entries(t, c, s, m, keys.take(n)) is Err,
    ensures
        user_entries(t, c, s, m, keys) == user_entries(t, c, s, m, keys.take(n)),
    decreases keys.len() - n,
{
    if n < keys.len() {
        assert(keys.take(n + 1).drop_last() =~= keys.take(n));
        lemma_users_fail(t, c, s, m, keys, n + 1);
    } else {
        assert(keys.take(n) =~= keys);
    }
}

proof fn lemma_groups_fail(
    t: TxModel,
    s: SettingsModel,
    shown: Seq<Seq<char>>,
    keys: Seq<Seq<char>>,
    start: Listing,
    n: int,
)
    requires
        0 <= n <= keys.len(),
        group_entries(t, s, shown, keys.take(n), start) is Err,
    ensures
        group_entries(t, s, shown, keys, start) == group_entries(t, s, shown, keys.take(n), start),
    decreases keys.len() - n,
{
    if n < keys.len() {
        assert(keys.take(n + 1).drop_last() =~= keys.take(n));
        lemma_groups_fail(t, s, shown, keys, start, n + 1);
    } else {
        assert(keys.take(n) =~= keys);
    }
}

#[verifier::loop_isolation(false)]
fn list_users(
    tx: &Tx,
    client: &Client,
    settings: &Settings,
    memberships: &Table<Names>,
    shown: &Vec<String>,
    rows: &mut Vec<Entry>,
    taken: &mut Names,
) -> (r: Result<(), Error>)
    requires
        old(taken)@ == Set::<Seq<char>>::empty(),
        forall|i: int| 0 <= i < shown.len() ==> tx@.users.dom().contains((#[trigger] shown@[i])@),
    ensures
        match user_entries(tx@, client@, settings@, memberships@, texts(shown@)) {
            Err(f) => fails(r, f),
            Ok(l) => r is Ok && views(final(rows)@) == views(old(rows)@) + l.rows && final(taken)@
                == l.taken,
        },
{
    let ghost all = texts(shown@);
    let ghost start = views(rows@);
    let mut i: usize = 0;
    assert(all.take(0) =~= Seq::<Seq<char>>::empty());
    assert(start + Seq::<EntryModel>::empty() =~= start);
    while i < shown.len()
        invariant
            i <= shown.len(),
            user_entries(tx@, client@, settings@, memberships@, all.take(i as int)) matches Ok(l)
                && views(rows@) == start + l.rows && taken@ == l.taken,
        decreases shown.len() - i,
    {
        proof {
            assert(all.take(i + 1).drop_last() =~= all.take(i as int));
            assert(all.take(i + 1).last() == shown@[i as int]@);
            if user_entries(tx@, client@, settings@, memberships@, all.take(i + 1)) is Err {
                lemma_users_fail(tx@, client@, settings@, memberships@, all, i + 1);
            }
        }
        if let Some(u) = tx.users.get(shown[i].as_str()) {
            let dn = settings.user_dn(u.username.as_str());
            let low = lowercase(dn.as_str());
            if !taken.insert(low.as_str()) {
                return Err(Error::conflict("LDAP DNs collide under case-insensitive matching"));
            }
            let none = Names::new();
            let groups = match memberships.get(u.id.as_str()) {
                Some(g) => g,
                None => &none,
            };
            let ghost was = views(rows@);
            let e = make_user(client, settings, u, groups);
            let ghost em = e@;
            rows.push(e);
            proof {
                assert(views(rows@) =~= was.push(em));
                let l = user_entries(tx@, client@, settings@, memberships@, all.take(i as int))->Ok_0;
                assert(views(rows@) =~= start + l.rows.push(em));
            }
        }
        i = i + 1;
    }
    assert(all.take(i as int) =~= all);
    Ok(())
}

fn find_shown_name(tx: &Tx, id: &str, shown: &Vec<String>) -> (r: Option<String>)
    requires
        forall|i: int| 0 <= i < shown.len() ==> tx@.users.dom().contains((#[trigger] shown@[i])@),
    ensures
        opt_text(r) == shown_name(tx@, id@, texts(shown@)),
{
    let ghost all = texts(shown@);
    let mut i: usize = shown.len();
    assert(all.take(i as int) =~= all);
    while 0 < i
        invariant
            i <= shown.len(),
            all == texts(shown@),
            shown_name(tx@, id@, all) == shown_name(tx@, id@, all.take(i as int)),
            forall|j: int| 0 <= j < shown.len() ==> tx@.users.dom().contains((#[trigger] shown@[j])@),
        decreases i,
    {
        proof {
            assert(all.take(i as int).drop_last() =~= all.take(i - 1));
            assert(all.take(i as int).last() == shown@[i - 1]@);
        }
        if let Some(u) = tx.users.get(shown[i - 1].as_str()) {
            if same(u.id.as_str(), id) {
                return Some(u.username.clone());
            }
        }
        i = i - 1;
    }
    None
}

#[verifier::loop_isolation(false)]
fn list_members(tx: &Tx, settings: &Settings, members: &Names, shown: &Vec<String>) -> (v: Vec<String>)
    requires
        forall|i: int| 0 <= i < shown.len() ==> tx@.users.dom().contains((#[trigger] shown@[i])@),
    ensures
        texts(v@) == member_names(tx@, settings@, in_order(members@), texts(shown@)),
{
    let ghost all = in_order(members@);
    let n: usize = members.len();
    let mut v: Vec<String> = Vec::new();
    let mut i: usize = 0;
    assert(all.take(0) =~= Seq::<Seq<char>>::empty());
    assert(texts(v@) =~= Seq::<Seq<char>>::empty());
    while i < n
        invariant
            i <= n,
            texts(v@) == member_names(tx@, settings@, all.take(i as int), texts(shown@)),
        decreases n - i,
    {
        let ghost was = texts(v@);
        let id = members.at(i);
        proof {
            assert(all.take(i + 1).drop_last() =~= all.take(i as int));
        }
        if let Some(name) = find_shown_name(tx, id.as_str(), shown) {
            v.push(settings.user_dn(name.as_str()));
            assert(texts(v@) =~= was.push(user_name(settings@, name@)));
        }
        i = i + 1;
    }
    assert(all.take(i as int) =~= all);
    v
}

fn make_group(settings: &Settings, name: &str, members: Vec<String>) -> (e: Entry)
    ensures
        e@ == group_entry(settings@, name@, texts(members@)),
{
    let mut a = no_attributes();
    add_values(&mut a, "objectClass", list2("top", "groupOfNames"));
    add_value(&mut a, "cn", name);
    add_values(&mut a, "member", members);
    Entry { dn: settings.group_dn(name), attributes: a }
}

#[verifier::loop_isolation(false)]
fn list_groups(
    tx: &Tx,
    settings: &Settings,
    shown: &Vec<String>,
    rows: &mut Vec<Entry>,
    taken: &mut Names,
) -> (r: Result<(), Error>)
    requires
        forall|i: int| 0 <= i < shown.len() ==> tx@.users.dom().contains((#[trigger] shown@[i])@),
    ensures
        match group_entries(
            tx@,
            settings@,
            texts(shown@),
            in_order(tx@.groups.dom()),
            Listing { rows: views(old(rows)@), taken: old(taken)@ },
        ) {
            Err(f) => fails(r, f),
            Ok(l) => r is Ok && views(final(rows)@) == l.rows && final(taken)@ == l.taken,
        },
{
    let keys = tx.groups.keys();
    let ghost all = in_order(keys@);
    let ghost start = Listing { rows: views(rows@), taken: taken@ };
    let n: usize = keys.len();
    let mut i: usize = 0;
    assert(all.take(0) =~= Seq::<Seq<char>>::empty());
    while i < n
        invariant
            i <= n,
            group_entries(tx@, settings@, texts(shown@), all.take(i as int), start) matches Ok(l)
                && views(rows@) == l.rows && taken@ == l.taken,
        decreases n - i,
    {
        let name = keys.at(i);
        proof {
            assert(all.take(i + 1).drop_last() =~= all.take(i as int));
            if group_entries(tx@, settings@, texts(shown@), all.take(i + 1), start) is Err {
                lemma_groups_fail(tx@, settings@, texts(shown@), all, start, i + 1);
            }
        }
        if let Some(g) = tx.groups.get(name.as_str()) {
            let members = list_members(tx, settings, &g.members, shown);
            assert(texts(members@).len() == members.len());
            if members.len() > 0 {
                let dn = settings.group_dn(name.as_str());
                let low = lowercase(dn.as_str());
                if !taken.insert(low.as_str()) {
                    return Err(Error::conflict("LDAP group DNs collide"));
                }
                let ghost was = views(rows@);
                let e = make_group(settings, name.as_str(), members);
                let ghost em = e@;
                rows.push(e);
                assert(views(rows@) =~= was.push(em));
            }
        }
        i = i + 1;
    }
    assert(all.take(i as int) =~= all);
    Ok(())
}

/// The entry named `dn` is within the search below `base`; both are in lower case.
pub open spec fn in_scope(scope: Scope, dn: Seq<char>, base: Seq<char>) -> bool {
    let below = has_suffix(dn, ","@ + base);
    let child = dn.take(dn.len() - (","@ + base).len());
    match scope {
        Scope::Base => dn == base,
        Scope::OneLevel => below && !child.contains(','),
        Scope::Subtree => dn == base || below,
        Scope::Children => below,
    }
}

/// The entry is found by the search.
pub open spec fn found_by(q: SearchModel) -> spec_fn(EntryModel) -> bool {
    |e: EntryModel| in_scope(q.scope, lower(e.dn), lower(q.base)) && filter_matches(q.filter, e)
}

fn is_in_scope(scope: Scope, dn: &str, base: &str) -> (r: bool)
    ensures
        r == in_scope(scope, dn@, base@),
{
    let suffix = concat(",", base);
    let below = ends_with(dn, suffix.as_str());
    match scope {
        Scope::Base => same(dn, base),
        Scope::OneLevel => {
            if !below {
                false
            } else {
                let v = chars_of(dn);
                let s = chars_of(suffix.as_str());
                let child = slice_of(&v, 0, v.len() - s.len());
                assert(child@ =~= dn@.take(dn@.len() - (","@ + base@).len()));
                !has_char(child.as_str(), ',')
            }
        },
        Scope::Subtree => same(dn, base) || below,
        Scope::Children => below,
    }
}

/// An entry stands before those with a later name; entries with one name keep their order.
pub open spec fn placed(s: Seq<EntryModel>, e: EntryModel) -> Seq<EntryModel>
    decreases s.len(),
{
    if s.len() == 0 || !text_lt(e.dn, s.last().dn) {
        s.push(e)
    } else {
        placed(s.drop_last(), e).push(s.last())
    }
}

/// The entries sorted by name.
pub open spec fn by_name(s: Seq<EntryModel>) -> Seq<EntryModel>
    decreases s.len(),
{
    if s.len() == 0 {
        s
    } else {
        placed(by_name(s.drop_last()), s.last())
    }
}

fn place(v: &mut Vec<Entry>, e: Entry)
    ensures
        views(final(v)@) == placed(views(old(v)@), e@),
{
    let ghost all = views(v@);
    let mut i: usize = v.len();
    assert(all.take(i as int) =~= all);
    assert(all.skip(i as int) =~= Seq::<EntryModel>::empty());
    while 0 < i && before(e.dn.as_str(), v[i - 1].dn.as_str())
        invariant
            i <= v.len(),
            all == views(v@),
            placed(all, e@) == placed(all.take(i as int), e@) + all.skip(i as int),
        decreases i,
    {
        proof {
            assert(all.take(i as int).last() == v@[i - 1]@);
            assert(all.take(i as int).drop_last() =~= all.take(i - 1));
            assert(placed(all.take(i - 1), e@).push(all[i - 1]) + all.skip(i as int) =~= placed(
                all.take(i - 1),
                e@,
            ) + all.skip(i - 1));
        }
        i = i - 1;
    }
    proof {
        if i > 0 {
            assert(all.take(i as int).last() == v@[i - 1]@);
        }
        assert(placed(all.take(i as int), e@) == all.take(i as int).push(e@));
    }
    let ghost em = e@;
    v.insert(i, e);
    assert(views(v@) =~= all.take(i as int).push(em) + all.skip(i as int));
}

/// Whether a request asks for something that this profile does not do.
pub open spec fn unsupported(q: SearchModel) -> bool {
    q.sizelimit < 0 || q.timelimit < 0 || q.attrs.len() > 64 || (exists|i: int|
        0 <= i < q.attrs.len() && byte_count(#[trigger] q.attrs[i]) > 128) || !q.never_alias
}

/// What a search finds, or why it is refused.
pub open spec fn search_result(
    t: TxModel,
    cid: Seq<char>,
    viewer: ViewerModel,
    m: Map<Seq<char>, Set<Seq<char>>>,
    q: SearchModel,
    starttls: bool,
    rules: RulesModel,
) -> Result<Seq<EntryModel>, Failure> {
    if unsupported(q) {
        Err(Failure::Bad("Unsupported search options"@))
    } else if filter_check(q.filter, 0, 0) is Err {
        Err(filter_check(q.filter, 0, 0)->Err_0)
    } else {
        match directory(t, cid, rules) {
            Err(f) => Err(f),
            Ok((c, s)) => if q.base.len() == 0 && q.scope == Scope::Base {
                if filter_matches(q.filter, root_entry(s, starttls)) {
                    Ok(seq![root_entry(s, starttls)])
                } else {
                    Ok(Seq::empty())
                }
            } else if viewer == ViewerModel::Anonymous {
                Err(Failure::Unauthorized)
            } else if viewer == ViewerModel::Refused {
                Err(Failure::Refused("ldap"@))
            } else {
                match all_entries(t, c, s, m, viewer) {
                    Err(f) => Err(f),
                    Ok(rows) => if !(exists|i: int|
                        0 <= i < rows.len() && lower((#[trigger] rows[i]).dn) == lower(q.base)) {
                        Err(Failure::Missing("LDAP base not found"@))
                    } else if entries_size(by_name(rows.filter(found_by(q)))) > RESULT_LIMIT {
                        Err(Failure::Bad("LDAP result exceeds provider limit"@))
                    } else {
                        Ok(by_name(rows.filter(found_by(q))))
                    },
                }
            },
        }
    }
}

/// The most that a result may take.
pub const RESULT_LIMIT: u64 = 4_194_304;

/// What a list of values takes: 24 for each value, and 24 for each of its bytes.
pub open spec fn vals_size(v: Seq<Seq<char>>) -> nat
    decreases v.len(),
{
    if v.len() == 0 {
        0
    } else {
        vals_size(v.drop_last()) + 24 + 24 * byte_count(v.last())
    }
}

/// What a list of attributes takes: 48 for each, with its name and its values.
pub open spec fn attributes_size(v: Seq<EntryAttributeModel>) -> nat
    decreases v.len(),
{
    if v.len() == 0 {
        0
    } else {
        attributes_size(v.drop_last()) + 48 + byte_count(v.last().name) + vals_size(v.last().vals)
    }
}

/// What a list of entries takes: 48 for each, with its name and its attributes. Text is counted by
/// its length, not by what was set aside for it.
pub open spec fn entries_size(v: Seq<EntryModel>) -> nat
    decreases v.len(),
{
    if v.len() == 0 {
        0
    } else {
        entries_size(v.drop_last()) + 48 + byte_count(v.last().dn) + attributes_size(
            v.last().attributes,
        )
    }
}

/// A size, or what is just too large.
pub open spec fn capped(n: nat) -> u64 {
    if n > RESULT_LIMIT {
        4_194_305
    } else {
        n as u64
    }
}

/// Counts `n` units of `each` on top of `size`.
fn count_more(size: u64, n: usize, each: u64) -> (r: u64)
    requires
        size <= RESULT_LIMIT + 1,
        each == 1 || each == 24,
    ensures
        r == capped((size + each * n) as nat),
{
    if n > 4_194_304 {
        return 4_194_305;
    }
    let total: u64 = size + each * (n as u64);
    if total > RESULT_LIMIT {
        4_194_305
    } else {
        total
    }
}

#[verifier::loop_isolation(false)]
fn measure_vals(v: &Vec<String>) -> (r: u64)
    ensures
        r == capped(vals_size(texts(v@))),
{
    let ghost all = texts(v@);
    assert(all.len() == v.len());
    let mut size: u64 = 0;
    let mut i: usize = 0;
    assert(all.take(0) =~= Seq::<Seq<char>>::empty());
    while i < v.len()
        invariant
            i <= v.len(),
            size == capped(vals_size(all.take(i as int))),
        decreases v.len() - i,
    {
        assert(all[i as int] == v[i as int]@);
        assert(all.take(i + 1).drop_last() =~= all.take(i as int));
        assert(all.take(i + 1).last() == all[i as int]);
        size = count_more(size, 1, 24);
        size = count_more(size, byte_len(v[i].as_str()), 24);
        i = i + 1;
    }
    assert(all.take(i as int) =~= all);
    size
}

#[verifier::loop_isolation(false)]
fn measure_attributes(v: &Vec<EntryAttribute>) -> (r: u64)
    ensures
        r == capped(attributes_size(views(v@))),
{
    let ghost all = views(v@);
    assert(all.len() == v.len());
    let mut size: u64 = 0;
    let mut i: usize = 0;
    assert(all.take(0) =~= Seq::<EntryAttributeModel>::empty());
    while i < v.len()
        invariant
            i <= v.len(),
            size == capped(attributes_size(all.take(i as int))),
        decreases v.len() - i,
    {
        assert(all[i as int] == v[i as int]@);
        assert(all.take(i + 1).drop_last() =~= all.take(i as int));
        assert(all.take(i + 1).last() == all[i as int]);
        let vals: u64 = measure_vals(&v[i].vals);
        size = count_more(size, 48, 1);
        size = count_more(size, byte_len(v[i].name.as_str()), 1);
        size = count_more(size, vals as usize, 1);
        i = i + 1;
    }
    assert(all.take(i as int) =~= all);
    size
}

#[verifier::loop_isolation(false)]
fn measure_entries(v: &Vec<Entry>) -> (r: u64)
    ensures
        r == capped(entries_size(views(v@))),
{
    let ghost all = views(v@);
    assert(all.len() == v.len());
    let mut size: u64 = 0;
    let mut i: usize = 0;
    assert(all.take(0) =~= Seq::<EntryModel>::empty());
    while i < v.len()
        invariant
            i <= v.len(),
            size == capped(entries_size(all.take(i as int))),
        decreases v.len() - i,
    {
        assert(all[i as int] == v[i as int]@);
        assert(all.take(i + 1).drop_last() =~= all.take(i as int));
        assert(all.take(i + 1).last() == all[i as int]);
        let attributes: u64 = measure_attributes(&v[i].attributes);
        size = count_more(size, 48, 1);
        size = count_more(size, byte_len(v[i].dn.as_str()), 1);
        size = count_more(size, attributes as usize, 1);
        i = i + 1;
    }
    assert(all.take(i as int) =~= all);
    size
}

fn asks_unsupported(q: &SearchRequest) -> (r: bool)
    ensures
        r == unsupported(q@),
{
    if q.sizelimit < 0 || q.timelimit < 0 || q.attrs.len() > 64 || !q.never_alias {
        return true;
    }
    let mut i: usize = 0;
    while i < q.attrs.len()
        invariant
            i <= q.attrs.len(),
            !(q.sizelimit < 0 || q.timelimit < 0 || q.attrs.len() > 64 || !q.never_alias),
            forall|j: int| 0 <= j < i ==> byte_count(#[trigger] q@.attrs[j]) <= 128,
        decreases q.attrs.len() - i,
    {
        assert(q@.attrs[i as int] == q.attrs@[i as int]@);
        if byte_len(q.attrs[i].as_str()) > 128 {
            return true;
        }
        i = i + 1;
    }
    false
}

fn find_base(rows: &Vec<Entry>, base: &str) -> (r: bool)
    ensures
        r == exists|i: int|
            0 <= i < views(rows@).len() && lower((#[trigger] views(rows@)[i]).dn) == lower(base@),
{
    let ghost all = views(rows@);
    let mut i: usize = 0;
    while i < rows.len()
        invariant
            i <= rows.len(),
            all == views(rows@),
            forall|j: int| 0 <= j < i ==> lower((#[trigger] all[j]).dn) != lower(base@),
        decreases rows.len() - i,
    {
        assert(all[i as int] == rows@[i as int]@);
        if same_ignoring_case(rows[i].dn.as_str(), base) {
            return true;
        }
        i = i + 1;
    }
    false
}

fn keep_found(rows: &Vec<Entry>, q: &SearchRequest) -> (r: Vec<Entry>)
    ensures
        views(r@) == by_name(views(rows@).filter(found_by(q@))),
{
    let ghost all = views(rows@);
    let ghost p = found_by(q@);
    let base = lowercase(q.base.as_str());
    let mut r: Vec<Entry> = Vec::new();
    let mut i: usize = 0;
    assert(all.take(0).filter(p) =~= Seq::<EntryModel>::empty());
    assert(views(r@) =~= by_name(Seq::<EntryModel>::empty()));
    while i < rows.len()
        invariant
            i <= rows.len(),
            all == views(rows@),
            p == found_by(q@),
            base@ == lower(q@.base),
            views(r@) == by_name(all.take(i as int).filter(p)),
        decreases rows.len() - i,
    {
        let row = &rows[i];
        proof {
            assert(all.take(i + 1) =~= all.take(i as int).push(rows@[i as int]@));
            all.take(i as int).lemma_filter_push(rows@[i as int]@, p);
            let a = all.take(i as int).filter(p);
            assert(a.push(rows@[i as int]@).drop_last() =~= a);
        }
        let dn = lowercase(row.dn.as_str());
        if is_in_scope(q.scope, dn.as_str(), base.as_str()) && matches_filter(&q.filter, row) {
            place(&mut r, row.dup());
        }
        i = i + 1;
    }
    assert(all.take(i as int) =~= all);
    r
}

/// What a search finds for a viewer. `memberships` holds the durable groups of each user, by id.
/// A result that is larger than the provider's limit is refused.
pub fn search_entries(
    tx: &Tx,
    cid: &str,
    viewer: &Viewer,
    memberships: &Table<Names>,
    query: &SearchRequest,
    starttls: bool,
    rules: &Rules,
) -> (r: Result<(Vec<Entry>, u64), Error>)
    ensures
        match search_result(tx@, cid@, viewer@, memberships@, query@, starttls, rules@) {
            Ok(rows) => r is Ok && views((r->Ok_0).0@) == rows && (r->Ok_0).1 == tx@.revision,
            Err(f) => fails(r, f),
        },
{
    if asks_unsupported(query) {
        return Err(Error::bad("Unsupported search options"));
    }
    if let Err(e) = validate_filter(&query.filter) {
        return Err(e);
    }
    let (client, settings) = match profile(tx, cid, rules) {
        Ok(p) => p,
        Err(e) => return Err(e),
    };
    let base_only = match query.scope {
        Scope::Base => true,
        _ => false,
    };
    if query.base.as_str().is_empty() && base_only {
        let root = make_root(&settings, starttls);
        let mut rows: Vec<Entry> = Vec::new();
        if matches_filter(&query.filter, &root) {
            rows.push(root);
            assert(views(rows@) =~= seq![root_entry(settings@, starttls)]);
        } else {
            assert(views(rows@) =~= Seq::<EntryModel>::empty());
        }
        return Ok((rows, tx.revision));
    }
    match viewer {
        Viewer::Anonymous => return Err(Error::Unauthorized),
        Viewer::Refused => return Err(Error::Refused("ldap".to_owned())),
        _ => {},
    }
    let shown = select_users(tx, &settings, viewer);
    assert(texts(shown@).len() == shown.len());
    if shown.len() > 2000 {
        return Err(Error::bad("LDAP profile supports at most 2000 selected users"));
    }
    let mut rows = make_fixed(&settings);
    let mut taken = Names::new();
    if let Err(e) = list_users(tx, &client, &settings, memberships, &shown, &mut rows, &mut taken) {
        return Err(e);
    }
    if client.scopes.contains("groups") {
        if let Err(e) = list_groups(tx, &settings, &shown, &mut rows, &mut taken) {
            return Err(e);
        }
    }
    if !find_base(&rows, query.base.as_str()) {
        return Err(Error::missing("LDAP base not found"));
    }
    let found = keep_found(&rows, query);
    if measure_entries(&found) > RESULT_LIMIT {
        return Err(Error::bad("LDAP result exceeds provider limit"));
    }
    Ok((found, tx.revision))
}

/// A user who searches sees no other user.
pub proof fn users_see_only_themselves(t: TxModel, s: SettingsModel, me: Seq<char>, i: int)
    requires
        0 <= i < shown_users(t, s, ViewerModel::User(me)).len(),
    ensures
        t.users[shown_users(t, s, ViewerModel::User(me))[i]].id == me,
        t.users[shown_users(t, s, ViewerModel::User(me))[i]].enabled,
{
    in_order(t.users.dom()).lemma_filter_pred(shown_user(t, s, ViewerModel::User(me)), i);
}

/// What whoami answers.
pub open spec fn whoami_text(t: TxModel, cid: Seq<char>, viewer: ViewerModel, rules: RulesModel) -> Result<
    Seq<char>,
    Failure,
> {
    match directory(t, cid, rules) {
        Err(f) => Err(f),
        Ok((_, s)) => match viewer {
            ViewerModel::Anonymous => Ok(""@),
            ViewerModel::Refused => Err(Failure::Refused("ldap"@)),
            ViewerModel::Agent => Ok("dn:"@ + agent_name(s)),
            ViewerModel::User(id) => if t.users.dom().contains(id) {
                Ok("dn:"@ + user_name(s, t.users[id].username))
            } else {
                Err(Failure::Unauthorized)
            },
        },
    }
}

pub fn whoami(tx: &Tx, cid: &str, viewer: &Viewer, rules: &Rules) -> (r: Result<String, Error>)
    ensures
        agrees_with(r, whoami_text(tx@, cid@, viewer@, rules@)),
{
    let (_, settings) = match profile(tx, cid, rules) {
        Ok(p) => p,
        Err(e) => return Err(e),
    };
    match viewer {
        Viewer::Anonymous => Ok("".to_owned()),
        Viewer::Refused => Err(Error::Refused("ldap".to_owned())),
        Viewer::Agent => {
            let dn = settings.agent_dn();
            Ok(concat("dn:", dn.as_str()))
        },
        Viewer::User(id) => match tx.users.get(id.as_str()) {
            Some(u) => {
                let dn = settings.user_dn(u.username.as_str());
                Ok(concat("dn:", dn.as_str()))
            },
            None => Err(Error::Unauthorized),
        },
    }
}

/// A one-level search finds the direct children of its base and nothing else: a name is one component
/// without a comma, a comma, and the base.
pub proof fn one_level_finds_direct_children(rdn: Seq<char>, base: Seq<char>)
    ensures
        in_scope(Scope::OneLevel, rdn + ","@ + base, base) <==> !rdn.contains(','),
{
    let dn = rdn + ","@ + base;
    assert(dn =~= rdn + (","@ + base));
    assert(dn.take(dn.len() - (","@ + base).len()) =~= rdn);
    assert(dn.skip(dn.len() - (","@ + base).len()) =~= ","@ + base);
}

/// What the scopes of a search take in. Every scope but the base alone finds only names that end in a
/// comma and the base; a subtree is the base and everything below it.
pub proof fn scopes_take_in_what_they_say(dn: Seq<char>, base: Seq<char>)
    ensures
        in_scope(Scope::Base, dn, base) <==> dn == base,
        in_scope(Scope::Children, dn, base) <==> exists|rdn: Seq<char>| #[trigger]
            (rdn + ","@ + base) == dn,
        in_scope(Scope::Subtree, dn, base) <==> dn == base || in_scope(Scope::Children, dn, base),
        in_scope(Scope::OneLevel, dn, base) ==> in_scope(Scope::Children, dn, base),
        in_scope(Scope::OneLevel, dn, base) <==> exists|rdn: Seq<char>| #[trigger]
            (rdn + ","@ + base) == dn && !rdn.contains(','),
{
    let tail = ","@ + base;
    if has_suffix(dn, tail) {
        let rdn = dn.take(dn.len() - tail.len());
        assert(dn =~= rdn + dn.skip(dn.len() - tail.len()));
        assert(rdn + ","@ + base =~= rdn + tail);
        one_level_finds_direct_children(rdn, base);
    }
    assert forall|rdn: Seq<char>| #[trigger] (rdn + ","@ + base) == dn implies has_suffix(dn, tail)
        && dn.take(dn.len() - tail.len()) == rdn by {
        assert(rdn + ","@ + base =~= rdn + tail);
        assert(dn.skip(dn.len() - tail.len()) =~= tail);
        assert(dn.take(dn.len() - tail.len()) =~= rdn);
    }
}

/// What a search finds: of the entries that the viewer may see, those that the filter matches and that lie
/// in the scope, whatever the case of their names; a search of one level finds those whose name is one
/// component and the base. They come in the order of their names.
pub proof fn searches_find_what_matches(
    t: TxModel,
    cid: Seq<char>,
    viewer: ViewerModel,
    m: Map<Seq<char>, Set<Seq<char>>>,
    q: SearchModel,
    starttls: bool,
    rules: RulesModel,
    e: EntryModel,
)
    requires
        search_result(t, cid, viewer, m, q, starttls, rules) is Ok,
        q.base.len() > 0,
    ensures
        ({
            let found = search_result(t, cid, viewer, m, q, starttls, rules)->Ok_0;
            let c = t.clients[cid];
            let rows = all_entries(t, c, c.settings.ldap->0, m, viewer)->Ok_0;
            let dn = lower(e.dn);
            let base = lower(q.base);
            &&& !(viewer is Anonymous) && !(viewer is Refused)
            &&& t.clients.dom().contains(cid) && c.enabled && c.settings.ldap is Some
            &&& all_entries(t, c, c.settings.ldap->0, m, viewer) is Ok
            &&& found.contains(e) <==> rows.contains(e) && filter_matches(q.filter, e) && match q.scope {
                Scope::Base => dn == base,
                Scope::OneLevel => exists|rdn: Seq<char>| #[trigger]
                    (rdn + ","@ + base) == dn && !rdn.contains(','),
                Scope::Children => exists|rdn: Seq<char>| #[trigger] (rdn + ","@ + base) == dn,
                Scope::Subtree => dn == base || exists|rdn: Seq<char>| #[trigger]
                    (rdn + ","@ + base) == dn,
            }
            &&& forall|i: int, j: int|
                0 <= i < j < found.len() ==> !text_lt((#[trigger] found[j]).dn, (
                #[trigger] found[i]).dn)
        }),
{
    let c = t.clients[cid];
    let rows = all_entries(t, c, c.settings.ldap->0, m, viewer)->Ok_0;
    let kept = rows.filter(found_by(q));
    scopes_take_in_what_they_say(lower(e.dn), lower(q.base));
    lemma_kept_entries(rows, found_by(q), e);
    lemma_ordered_entries(kept, e);
}

proof fn lemma_kept_entries(rows: Seq<EntryModel>, rule: spec_fn(EntryModel) -> bool, e: EntryModel)
    ensures
        rows.filter(rule).contains(e) <==> rows.contains(e) && rule(e),
    decreases rows.len(),
{
    reveal(Seq::filter);
    if rows.len() > 0 {
        let d = rows.drop_last();
        let x = rows.last();
        lemma_kept_entries(d, rule, e);
        let rest = d.filter(rule);
        let all = rows.filter(rule);
        if rest.contains(e) {
            let i = rest.index_of(e);
            assert(all[i] == e);
        }
        if d.contains(e) {
            let i = d.index_of(e);
            assert(rows[i] == e);
        }
        if rows.contains(e) && !d.contains(e) {
            let i = rows.index_of(e);
            if i < d.len() {
                assert(d[i] == e);
            }
            assert(x == e);
            if rule(e) {
                assert(all[rest.len() as int] == e);
            }
        }
        if all.contains(e) && !rest.contains(e) {
            let i = all.index_of(e);
            if i < rest.len() {
                assert(rest[i] == e);
            }
            assert(x == e && rule(x));
            assert(rows[rows.len() - 1] == e);
        }
    }
}

spec fn names_ordered(s: Seq<EntryModel>) -> bool {
    forall|i: int, j: int|
        0 <= i < j < s.len() ==> !text_lt((#[trigger] s[j]).dn, (#[trigger] s[i]).dn)
}

proof fn lemma_placed(s: Seq<EntryModel>, x: EntryModel, e: EntryModel)
    requires
        names_ordered(s),
    ensures
        names_ordered(placed(s, x)),
        placed(s, x).contains(e) <==> s.contains(e) || e == x,
        forall|i: int| 0 <= i < placed(s, x).len() ==> (#[trigger] placed(s, x)[i]) == x || s.contains(
            placed(s, x)[i],
        ),
        placed(s, x).len() == s.len() + 1,
    decreases s.len(),
{
    if s.len() == 0 || !text_lt(x.dn, s.last().dn) {
        let p = s.push(x);
        if s.contains(e) {
            let i = s.index_of(e);
            assert(p[i] == e);
        }
        assert(p[s.len() as int] == x);
        assert forall|i: int, j: int| 0 <= i < j < p.len() implies !text_lt(
            (#[trigger] p[j]).dn,
            (#[trigger] p[i]).dn,
        ) by {
            if j == s.len() && i < s.len() - 1 {
                let l = s[s.len() - 1];
                assert(!text_lt(l.dn, s[i].dn));
                if text_lt(x.dn, s[i].dn) {
                    lemma_lt_total(l.dn, s[i].dn);
                    if text_lt(s[i].dn, l.dn) {
                        lemma_lt_transitive(x.dn, s[i].dn, l.dn);
                    }
                }
            }
        }
        assert forall|i: int| 0 <= i < p.len() implies (#[trigger] p[i]) == x || s.contains(p[i]) by {
            if i < s.len() {
                assert(s[i] == p[i]);
            }
        }
    } else {
        let d = s.drop_last();
        let l = s.last();
        assert forall|i: int, j: int| 0 <= i < j < d.len() implies !text_lt(
            (#[trigger] d[j]).dn,
            (#[trigger] d[i]).dn,
        ) by {
            assert(d[i] == s[i] && d[j] == s[j]);
        }
        lemma_placed(d, x, e);
        let w = placed(d, x);
        let p = w.push(l);
        if d.contains(e) {
            let i = d.index_of(e);
            assert(s[i] == e);
        }
        if s.contains(e) && !d.contains(e) {
            let i = s.index_of(e);
            if i < d.len() {
                assert(d[i] == e);
            }
        }
        if w.contains(e) {
            let i = w.index_of(e);
            assert(p[i] == e);
        }
        assert(p[w.len() as int] == l);
        assert(s[s.len() - 1] == l);
        if p.contains(e) && !w.contains(e) {
            let i = p.index_of(e);
            if i < w.len() {
                assert(w[i] == e);
            }
        }
        assert forall|i: int| 0 <= i < p.len() implies (#[trigger] p[i]) == x || s.contains(p[i]) by {
            if i < w.len() {
                assert(w[i] == p[i]);
                if w[i] != x {
                    let k = d.index_of(w[i]);
                    assert(s[k] == p[i]);
                }
            }
        }
        assert forall|i: int, j: int| 0 <= i < j < p.len() implies !text_lt(
            (#[trigger] p[j]).dn,
            (#[trigger] p[i]).dn,
        ) by {
            if j == w.len() {
                assert(p[i] == w[i]);
                if w[i] == x {
                    if text_lt(l.dn, x.dn) {
                        lemma_lt_transitive(l.dn, x.dn, l.dn);
                        lemma_lt_irreflexive(l.dn);
                    }
                } else {
                    let k = d.index_of(w[i]);
                    assert(s[k] == w[i]);
                    assert(!text_lt(s[s.len() - 1].dn, s[k].dn));
                }
            } else {
                assert(p[i] == w[i] && p[j] == w[j]);
            }
        }
    }
}

proof fn lemma_ordered_entries(s: Seq<EntryModel>, e: EntryModel)
    ensures
        names_ordered(by_name(s)),
        by_name(s).contains(e) <==> s.contains(e),
    decreases s.len(),
{
    if s.len() > 0 {
        let d = s.drop_last();
        lemma_ordered_entries(d, e);
        lemma_placed(by_name(d), s.last(), e);
        if d.contains(e) {
            let i = d.index_of(e);
            assert(s[i] == e);
        }
        if s.contains(e) && !d.contains(e) {
            let i = s.index_of(e);
            if i < d.len() {
                assert(d[i] == e);
            }
        }
        assert(s[s.len() - 1] == s.last());
    }
}

/// An entry shows its user: the name, the display name and the id, and the address and the groups where
/// the client may have them.
pub proof fn entries_show_their_user(
    c: ClientModel,
    s: SettingsModel,
    u: UserModel,
    groups: Set<Seq<char>>,
)
    ensures
        ({
            let e = user_entry(c, s, u, groups);
            let a = e.attributes;
            &&& e.dn == "uid="@ + u.username + ",ou=users,"@ + s.base_dn
            &&& a[1] == (EntryAttributeModel { name: "uid"@, vals: seq![u.username] })
            &&& a[2] == (EntryAttributeModel { name: "cn"@, vals: seq![u.display_name] })
            &&& a[3] == (EntryAttributeModel { name: "sn"@, vals: seq![u.display_name] })
            &&& a[4] == (EntryAttributeModel { name: "displayName"@, vals: seq![u.display_name] })
            &&& a[5] == (EntryAttributeModel { name: "entryUUID"@, vals: seq![u.id] })
            &&& c.scopes.contains("email"@) && u.email is Some ==> a[6] == (EntryAttributeModel {
                name: "mail"@,
                vals: seq![u.email->0],
            })
            &&& !c.scopes.contains("email"@) && !c.scopes.contains("groups"@) ==> a.len() == 6
        }),
{
}

/// Whom a directory shows: enabled members of its search groups, and to a user only themselves.
pub proof fn directories_show_their_groups(
    t: TxModel,
    s: SettingsModel,
    viewer: ViewerModel,
    k: Seq<char>,
)
    requires
        t.users.dom().finite(),
        viewer is Agent || viewer is User,
    ensures
        shown_users(t, s, viewer).contains(k) <==> {
            &&& t.users.dom().contains(k) && t.users[k].enabled
            &&& exists|g: Seq<char>| #[trigger]
                t.groups.dom().contains(g) && s.search_groups.contains(g)
                    && t.groups[g].members.contains(t.users[k].id)
            &&& viewer matches ViewerModel::User(me) ==> me == t.users[k].id
        },
{
    finite_sets_are_listed(t.users.dom());
    let list = in_order(t.users.dom());
    assert(list.to_set().contains(k) <==> list.contains(k));
    lemma_kept_names(list, shown_user(t, s, viewer), k);
}

proof fn lemma_kept_names(list: Seq<Seq<char>>, rule: spec_fn(Seq<char>) -> bool, k: Seq<char>)
    ensures
        list.filter(rule).contains(k) <==> list.contains(k) && rule(k),
    decreases list.len(),
{
    reveal(Seq::filter);
    if list.len() > 0 {
        let d = list.drop_last();
        let x = list.last();
        lemma_kept_names(d, rule, k);
        let rest = d.filter(rule);
        let all = list.filter(rule);
        if rest.contains(k) {
            let i = rest.index_of(k);
            assert(all[i] == k);
        }
        if d.contains(k) {
            let i = d.index_of(k);
            assert(list[i] == k);
        }
        if list.contains(k) && !d.contains(k) {
            let i = list.index_of(k);
            if i < d.len() {
                assert(d[i] == k);
            }
            if rule(k) {
                assert(all[rest.len() as int] == k);
            }
        }
        if all.contains(k) && !rest.contains(k) {
            let i = all.index_of(k);
            if i < rest.len() {
                assert(rest[i] == k);
            }
            assert(list[list.len() - 1] == k);
        }
    }
}

/// Who asks who they are is told their own name in the directory.
pub proof fn viewers_are_told_who_they_are(
    t: TxModel,
    cid: Seq<char>,
    id: Seq<char>,
    rules: RulesModel,
)
    requires
        directory(t, cid, rules) is Ok,
        t.users.dom().contains(id),
    ensures
        ({
            let base = (t.clients[cid].settings.ldap->0).base_dn;
            &&& whoami_text(t, cid, ViewerModel::User(id), rules) == Ok::<Seq<char>, Failure>(
                "dn:"@ + ("uid="@ + t.users[id].username + ",ou=users,"@ + base),
            )
            &&& whoami_text(t, cid, ViewerModel::Anonymous, rules) == Ok::<Seq<char>, Failure>(""@)
            &&& whoami_text(t, cid, ViewerModel::Agent, rules) == Ok::<Seq<char>, Failure>(
                "dn:"@ + ("cn=riauth-agent,"@ + base),
            )
            &&& whoami_text(t, cid, ViewerModel::Refused, rules) is Err
        }),
{
}

/// Every user that is listed has one entry, in its place.
pub proof fn every_listed_user_has_an_entry(
    t: TxModel,
    c: ClientModel,
    s: SettingsModel,
    m: Map<Seq<char>, Set<Seq<char>>>,
    keys: Seq<Seq<char>>,
    i: int,
)
    requires
        user_entries(t, c, s, m, keys) is Ok,
        0 <= i < keys.len(),
    ensures
        (user_entries(t, c, s, m, keys)->Ok_0).rows.len() == keys.len(),
        (user_entries(t, c, s, m, keys)->Ok_0).rows[i] == user_entry(
            c,
            s,
            t.users[keys[i]],
            memberships_of(m, t.users[keys[i]].id),
        ),
        (user_entries(t, c, s, m, keys)->Ok_0).taken.contains(lower(user_name(s, t.users[keys[i]].username))),
    decreases keys.len(),
{
    let d = keys.drop_last();
    if i < d.len() {
        assert(d[i] == keys[i]);
        every_listed_user_has_an_entry(t, c, s, m, d, i);
    } else if d.len() > 0 {
        every_listed_user_has_an_entry(t, c, s, m, d, 0);
    }
}

/// A group is listed if one of its members is shown, with those members.
pub proof fn groups_are_listed_with_shown_members(
    t: TxModel,
    s: SettingsModel,
    shown: Seq<Seq<char>>,
    keys: Seq<Seq<char>>,
    start: Listing,
    i: int,
)
    requires
        group_entries(t, s, shown, keys, start) is Ok,
        0 <= i < keys.len(),
        member_names(t, s, in_order(t.groups[keys[i]].members), shown).len() > 0,
    ensures
        (group_entries(t, s, shown, keys, start)->Ok_0).rows.contains(
            group_entry(s, keys[i], member_names(t, s, in_order(t.groups[keys[i]].members), shown)),
        ),
    decreases keys.len(),
{
    let e = group_entry(s, keys[i], member_names(t, s, in_order(t.groups[keys[i]].members), shown));
    let d = keys.drop_last();
    let all = (group_entries(t, s, shown, keys, start)->Ok_0).rows;
    let rest = (group_entries(t, s, shown, d, start)->Ok_0).rows;
    if i < d.len() {
        assert(d[i] == keys[i]);
        groups_are_listed_with_shown_members(t, s, shown, d, start, i);
        assert(all[rest.index_of(e)] == e);
    } else {
        assert(all[rest.len() as int] == e);
    }
}

/// The root of the directory names its base, its version and what it can do; encryption can be started
/// where it was not yet.
pub proof fn the_root_names_the_directory(s: SettingsModel, starttls: bool)
    ensures
        ({
            let a = root_entry(s, starttls).attributes;
            &&& root_entry(s, starttls).dn == ""@
            &&& a.len() == 5
            &&& a[1] == (EntryAttributeModel { name: "namingContexts"@, vals: seq![s.base_dn] })
            &&& a[2] == (EntryAttributeModel { name: "supportedLDAPVersion"@, vals: seq!["3"@] })
            &&& a[3].name == "supportedExtension"@
            &&& a[3].vals.contains("1.3.6.1.4.1.4203.1.11.3"@)
            &&& starttls ==> a[3].vals.contains("1.3.6.1.4.1.1466.20037"@)
            &&& a[4] == (EntryAttributeModel {
                name: "supportedControl"@,
                vals: seq!["1.2.840.113556.1.4.319"@],
            })
        }),
{
    let v = root_entry(s, starttls).attributes[3].vals;
    if starttls {
        assert(v[0] == "1.3.6.1.4.1.1466.20037"@);
        assert(v[1] == "1.3.6.1.4.1.4203.1.11.3"@);
    } else {
        assert(v[0] == "1.3.6.1.4.1.4203.1.11.3"@);
    }
}

} // verus!
