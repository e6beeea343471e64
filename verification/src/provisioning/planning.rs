//! Plans: what a target should hold, drafted from the directory and from what it was given before.
use crate::engine::{ConfigModel, Core, Principal, PrincipalModel, audit, audited, drawn, extended, next_id};
use crate::error::{Error, Failure, agrees, agrees_with, fails};
use crate::json::{Json, JsonModel, Member, a_member_that_is_set_is_found, items_of, lemma_items_of, lemma_members_of, lookup, member, members_of, text, with_member};
use crate::model::{Group, GroupModel, User, UserModel};
use crate::names::{Names, add_all, common, finite_sets_are_listed, in_order, lemma_take_set};
use crate::outside::{digest, digest_of};
use crate::provisioning::{Link, LinkModel, Plan, PlanModel, Resource, ResourceModel, scim_target_check, terminal};
use crate::provisioning::jobs::{capped, sum_sizes, total_size};
use crate::rules::{Rules, RulesModel};
use crate::store::{Tx, TxModel};
use crate::table::{Row, Table, opt_view, views};
use crate::text::{concat, concat3, same, texts};
use crate::provisioning::{Target, TargetModel};
use vstd::prelude::*;
use vstd::string::*;

verus! {

pub const MAX_PLAN_RESOURCES: usize = 2064;

pub const MAX_PLAN_USERS: usize = 2000;

pub const MAX_PLAN_BYTES: u64 = 2097152;

pub const MAX_RETAINED_PLANS: usize = 32;

pub const MAX_RETAINED_PLAN_BYTES: u64 = 16777216;

/// The members of all these groups, unless one of the groups is missing.
pub open spec fn members_of_groups(groups: Map<Seq<char>, GroupModel>, names: Seq<Seq<char>>) -> Option<
    Set<Seq<char>>,
>
    decreases names.len(),
{
    if names.len() == 0 {
        Some(Set::empty())
    } else {
        match members_of_groups(groups, names.drop_last()) {
            None => None,
            Some(s) => if groups.dom().contains(names.last()) {
                Some(s.union(groups[names.last()].members))
            } else {
                None
            },
        }
    }
}

proof fn lemma_group_missing(groups: Map<Seq<char>, GroupModel>, names: Seq<Seq<char>>, n: int)
    requires
        0 <= n <= names.len(),
        members_of_groups(groups, names.take(n)) is None,
    ensures
        members_of_groups(groups, names) is None,
    decreases names.len() - n,
{
    if n < names.len() {
        assert(names.take(n + 1).drop_last() =~= names.take(n));
        lemma_group_missing(groups, names, n + 1);
    } else {
        assert(names.take(n) =~= names);
    }
}

fn select_members(groups: &Table<Group>, names: &Names) -> (r: Option<Names>)
    ensures
        match members_of_groups(groups@, in_order(names@)) {
            Some(s) => r is Some && r->0@ == s,
            None => r is None,
        },
{
    let ghost all = in_order(names@);
    let n: usize = names.len();
    let mut out = Names::new();
    let mut i: usize = 0;
    assert(all.take(0) =~= Seq::<Seq<char>>::empty());
    while i < n
        invariant
            i <= n,
            n == all.len(),
            all == in_order(names@),
            members_of_groups(groups@, all.take(i as int)) == Some(out@),
        decreases n - i,
    {
        proof {
            assert(all.take(i + 1).drop_last() =~= all.take(i as int));
        }
        match groups.get(names.at(i).as_str()) {
            None => {
                proof {
                    lemma_group_missing(groups@, all, i + 1);
                }
                return None;
            },
            Some(g) => {
                add_all(&mut out, &g.members);
            },
        }
        i = i + 1;
    }
    assert(all.take(n as int) =~= all);
    Some(out)
}

/// The prefix of the external ids that this provider gives.
pub open spec fn id_prefix(issuer: Seq<char>) -> Seq<char> {
    "urn:riauth:"@ + digest_of(issuer)
}

/// A user is exported while they are enabled, and never when they administer.
pub open spec fn exported(users: Map<Seq<char>, UserModel>, selected: Set<Seq<char>>, k: Seq<char>) -> bool {
    users.dom().contains(k) && selected.contains(k) && users[k].enabled && !users[k].admin
}

pub open spec fn exported_users(users: Map<Seq<char>, UserModel>, selected: Set<Seq<char>>) -> Set<
    Seq<char>,
> {
    users.dom().filter(|k: Seq<char>| exported(users, selected, k))
}

/// The account of a user.
pub open spec fn user_resource(issuer: Seq<char>, id: Seq<char>, u: UserModel) -> ResourceModel {
    ResourceModel {
        kind: "Users"@,
        local_id: id,
        body: JsonModel::Object(
            seq![
                (
                    "schemas"@,
                    JsonModel::Array(
                        seq![JsonModel::Text("urn:ietf:params:scim:schemas:core:2.0:User"@)],
                    ),
                ),
                ("externalId"@, JsonModel::Text(id_prefix(issuer) + ":Users:"@ + id)),
                ("userName"@, JsonModel::Text(u.username)),
                ("displayName"@, JsonModel::Text(u.display_name)),
                ("active"@, JsonModel::Bool(true)),
                (
                    "emails"@,
                    JsonModel::Array(
                        match u.email {
                            Some(e) => seq![
                                JsonModel::Object(
                                    seq![
                                        ("value"@, JsonModel::Text(e)),
                                        ("primary"@, JsonModel::Bool(true)),
                                    ],
                                ),
                            ],
                            None => Seq::empty(),
                        },
                    ),
                ),
            ],
        ),
        member_ids: Seq::empty(),
    }
}

/// A group with its exported members.
pub open spec fn group_resource(issuer: Seq<char>, g: GroupModel, active: Set<Seq<char>>) -> ResourceModel {
    ResourceModel {
        kind: "Groups"@,
        local_id: g.name,
        body: JsonModel::Object(
            seq![
                (
                    "schemas"@,
                    JsonModel::Array(
                        seq![JsonModel::Text("urn:ietf:params:scim:schemas:core:2.0:Group"@)],
                    ),
                ),
                (
                    "externalId"@,
                    JsonModel::Text(id_prefix(issuer) + ":Groups:"@ + digest_of(g.name)),
                ),
                ("displayName"@, JsonModel::Text(g.name)),
                ("members"@, JsonModel::Array(Seq::empty())),
            ],
        ),
        member_ids: in_order(g.members.intersect(active)),
    }
}

/// What is left of an account that is not exported any more: it is disabled or emptied, never
/// deleted.
pub open spec fn departed_resource(l: LinkModel) -> ResourceModel {
    ResourceModel {
        kind: l.kind,
        local_id: l.local_id,
        body: match l.body {
            JsonModel::Object(m) => JsonModel::Object(
                if l.kind == "Users"@ {
                    with_member(m, "active"@, JsonModel::Bool(false))
                } else {
                    with_member(m, "members"@, JsonModel::Array(Seq::empty()))
                },
            ),
            other => other,
        },
        member_ids: Seq::empty(),
    }
}

fn schema(urn: &str) -> (r: Json)
    ensures
        r@ == JsonModel::Array(seq![JsonModel::Text(urn@)]),
{
    let mut v: Vec<Json> = Vec::new();
    v.push(text(urn));
    proof {
        lemma_items_of(v);
        assert(items_of(v@) =~= seq![JsonModel::Text(urn@)]);
    }
    Json::Array(v)
}

fn empty_array() -> (r: Json)
    ensures
        r@ == JsonModel::Array(Seq::empty()),
{
    let v: Vec<Json> = Vec::new();
    proof {
        lemma_items_of(v);
        assert(items_of(v@) =~= Seq::<JsonModel>::empty());
    }
    Json::Array(v)
}

fn external_prefix(issuer: &str) -> (r: String)
    ensures
        r@ == id_prefix(issuer@),
{
    let d = digest(issuer);
    concat("urn:riauth:", d.as_str())
}

pub fn draft_user(issuer: &str, id: &str, user: &User) -> (r: Resource)
    ensures
        r@ == user_resource(issuer@, id@, user@),
{
    let prefix = external_prefix(issuer);
    let external = concat3(prefix.as_str(), ":Users:", id);
    let emails = match &user.email {
        None => empty_array(),
        Some(e) => {
            let mut entry: Vec<Member> = Vec::new();
            entry.push(member("value", text(e.as_str())));
            entry.push(member("primary", Json::Bool(true)));
            proof {
                lemma_members_of(entry);
                assert(members_of(entry@) =~= seq![
                    ("value"@, JsonModel::Text(e@)),
                    ("primary"@, JsonModel::Bool(true)),
                ]);
            }
            let mut v: Vec<Json> = Vec::new();
            let x = Json::Object(entry);
            let ghost xm = x@;
            v.push(x);
            proof {
                lemma_items_of(v);
                assert(items_of(v@) =~= seq![xm]);
            }
            Json::Array(v)
        },
    };
    let mut m: Vec<Member> = Vec::new();
    m.push(member("schemas", schema("urn:ietf:params:scim:schemas:core:2.0:User")));
    m.push(member("externalId", text(external.as_str())));
    m.push(member("userName", text(user.username.as_str())));
    m.push(member("displayName", text(user.display_name.as_str())));
    m.push(member("active", Json::Bool(true)));
    m.push(member("emails", emails));
    proof {
        lemma_members_of(m);
        assert(members_of(m@) =~= user_resource(issuer@, id@, user@).body->Object_0);
    }
    let out = Resource {
        kind: "Users".to_owned(),
        local_id: id.to_owned(),
        body: Json::Object(m),
        member_ids: Vec::new(),
    };
    assert(texts(out.member_ids@) =~= Seq::<Seq<char>>::empty());
    out
}

pub fn draft_group(issuer: &str, group: &Group, active: &Names) -> (r: Resource)
    ensures
        r@ == group_resource(issuer@, group@, active@),
{
    let prefix = external_prefix(issuer);
    let hash = digest(group.name.as_str());
    let external = concat3(prefix.as_str(), ":Groups:", hash.as_str());
    let mut m: Vec<Member> = Vec::new();
    m.push(member("schemas", schema("urn:ietf:params:scim:schemas:core:2.0:Group")));
    m.push(member("externalId", text(external.as_str())));
    m.push(member("displayName", text(group.name.as_str())));
    m.push(member("members", empty_array()));
    proof {
        lemma_members_of(m);
        assert(members_of(m@) =~= group_resource(issuer@, group@, active@).body->Object_0);
    }
    let members = common(&group.members, active);
    Resource {
        kind: "Groups".to_owned(),
        local_id: group.name.clone(),
        body: Json::Object(m),
        member_ids: members.to_list(),
    }
}

pub fn draft_departed(link: &Link) -> (r: Resource)
    ensures
        r@ == departed_resource(link@),
{
    let mut body = link.body.dup();
    if same(link.kind.as_str(), "Users") {
        body.set("active", Json::Bool(false));
    } else {
        body.set("members", empty_array());
    }
    let out = Resource {
        kind: link.kind.clone(),
        local_id: link.local_id.clone(),
        body,
        member_ids: Vec::new(),
    };
    assert(texts(out.member_ids@) =~= Seq::<Seq<char>>::empty());
    out
}

/// The users and the groups of a draft, by local id.
pub struct Draft {
    pub people: Table<Resource>,
    pub others: Table<Resource>,
}

/// What a [`Draft`] holds.
pub struct DraftModel {
    pub people: Map<Seq<char>, ResourceModel>,
    pub others: Map<Seq<char>, ResourceModel>,
}

impl View for Draft {
    type V = DraftModel;

    open spec fn view(&self) -> DraftModel {
        DraftModel {
            people: self.people@,
            others: self.others@,
        }
    }
}

impl Row for Draft {
    fn dup(&self) -> (r: Self) {
        Draft {
            people: self.people.dup(),
            others: self.others.dup(),
        }
    }
}

/// The accounts of the exported users.
pub open spec fn people_drafted(
    issuer: Seq<char>,
    users: Map<Seq<char>, UserModel>,
    active: Set<Seq<char>>,
) -> Map<Seq<char>, ResourceModel> {
    Map::new(|k: Seq<char>| active.contains(k), |k: Seq<char>| user_resource(issuer, k, users[k]))
}

/// The groups, in turn.
pub open spec fn groups_drafted(
    issuer: Seq<char>,
    groups: Map<Seq<char>, GroupModel>,
    names: Seq<Seq<char>>,
    active: Set<Seq<char>>,
) -> Map<Seq<char>, ResourceModel>
    decreases names.len(),
{
    if names.len() == 0 {
        Map::empty()
    } else {
        let g = groups[names.last()];
        groups_drafted(issuer, groups, names.drop_last(), active).insert(
            g.name,
            group_resource(issuer, g, active),
        )
    }
}

/// The draft with what the target was given before and is not exported any more, or a link that
/// belongs to another address.
pub open spec fn departed_added(
    d: DraftModel,
    links: Map<Seq<char>, LinkModel>,
    keys: Seq<Seq<char>>,
    target: Seq<char>,
    url: Seq<char>,
) -> Option<DraftModel>
    decreases keys.len(),
{
    if keys.len() == 0 {
        Some(d)
    } else {
        match departed_added(d, links, keys.drop_last(), target, url) {
            None => None,
            Some(before) => {
                let l = links[keys.last()];
                if l.target != target {
                    Some(before)
                } else if l.url != url {
                    None
                } else if l.kind == "Users"@ {
                    if before.people.dom().contains(l.local_id) {
                        Some(before)
                    } else {
                        Some(
                            DraftModel {
                                people: before.people.insert(l.local_id, departed_resource(l)),
                                ..before
                            },
                        )
                    }
                } else if before.others.dom().contains(l.local_id) {
                    Some(before)
                } else {
                    Some(
                        DraftModel {
                            others: before.others.insert(l.local_id, departed_resource(l)),
                            ..before
                        },
                    )
                }
            },
        }
    }
}

proof fn lemma_departed_fails(
    d: DraftModel,
    links: Map<Seq<char>, LinkModel>,
    keys: Seq<Seq<char>>,
    target: Seq<char>,
    url: Seq<char>,
    n: int,
)
    requires
        0 <= n <= keys.len(),
        departed_added(d, links, keys.take(n), target, url) is None,
    ensures
        departed_added(d, links, keys, target, url) is None,
    decreases keys.len() - n,
{
    if n < keys.len() {
        assert(keys.take(n + 1).drop_last() =~= keys.take(n));
        lemma_departed_fails(d, links, keys, target, url, n + 1);
    } else {
        assert(keys.take(n) =~= keys);
    }
}

/// The rows in the order of their keys.
pub open spec fn rows_in_order(m: Map<Seq<char>, ResourceModel>) -> Seq<ResourceModel> {
    in_order(m.dom()).map_values(|k: Seq<char>| m[k])
}

/// The resources of a plan: users first, then groups, each in the order of the local ids.
pub open spec fn drafted(
    t: TxModel,
    issuer: Seq<char>,
    id: Seq<char>,
    target: TargetModel,
) -> Result<Seq<ResourceModel>, Failure> {
    match members_of_groups(t.groups, in_order(target.groups)) {
        None => Err(Failure::Bad("SCIM target references a missing group"@)),
        Some(selected) => {
            let active = exported_users(t.users, selected);
            if active.len() > MAX_PLAN_USERS {
                Err(
                    Failure::Bad(
                        "This SCIM target profile supports at most 2000 selected users"@,
                    ),
                )
            } else {
                let d = DraftModel {
                    people: people_drafted(issuer, t.users, active),
                    others: if target.export_groups {
                        groups_drafted(issuer, t.groups, in_order(target.groups), active)
                    } else {
                        Map::empty()
                    },
                };
                match departed_added(
                    d,
                    t.provisioning_links,
                    in_order(t.provisioning_links.dom()),
                    id,
                    target.url,
                ) {
                    None => Err(
                        Failure::Conflict(
                            "Target URL changed while remote accounts are linked; configure a new target ID"@,
                        ),
                    ),
                    Some(all) => if all.people.dom().len() + all.others.dom().len()
                        > MAX_PLAN_RESOURCES {
                        Err(Failure::Bad("SCIM plan exceeds the total resource limit"@))
                    } else {
                        Ok(rows_in_order(all.people) + rows_in_order(all.others))
                    },
                }
            }
        },
    }
}

#[verifier::loop_isolation(false)]
fn draft_people(tx: &Tx, issuer: &str, selected: &Names) -> (r: (Names, Table<Resource>))
    ensures
        r.0@ == exported_users(tx@.users, selected@),
        r.1@ == people_drafted(issuer@, tx@.users, r.0@),
{
    let keys = tx.users.keys();
    keys.listing();
    let ghost all = in_order(keys@);
    let ghost us = tx@.users;
    let n: usize = keys.len();
    let mut active = Names::new();
    let mut people: Table<Resource> = Table::new();
    let mut i: usize = 0;
    let ghost p = |k: Seq<char>| exported(us, selected@, k);
    assert(all.take(0).to_set().filter(p) =~= Set::<Seq<char>>::empty());
    assert(people@ =~= people_drafted(issuer@, us, active@));
    while i < n
        invariant
            i <= n,
            active@ == all.take(i as int).to_set().filter(p),
            people@ == people_drafted(issuer@, us, active@),
        decreases n - i,
    {
        let key = keys.at(i).as_str();
        proof {
            lemma_take_set(all, i as int);
            assert(us.dom().contains(key@));
        }
        if let Some(u) = tx.users.get(key) {
            if selected.contains(key) && u.enabled && !u.admin {
                active.insert(key);
                people.put(key, draft_user(issuer, key, u));
            }
        }
        proof {
            assert(active@ =~= all.take(i + 1).to_set().filter(p));
            assert(people@ =~= people_drafted(issuer@, us, active@));
        }
        i = i + 1;
    }
    proof {
        assert(all.take(n as int) =~= all);
        assert(all.to_set() =~= us.dom());
        assert(active@ =~= exported_users(us, selected@));
    }
    (active, people)
}

#[verifier::loop_isolation(false)]
fn draft_groups(tx: &Tx, issuer: &str, names: &Names, active: &Names) -> (r: Table<Resource>)
    requires
        members_of_groups(tx@.groups, in_order(names@)) is Some,
    ensures
        r@ == groups_drafted(issuer@, tx@.groups, in_order(names@), active@),
{
    let ghost all = in_order(names@);
    let n: usize = names.len();
    let mut out: Table<Resource> = Table::new();
    let mut i: usize = 0;
    assert(all.take(0) =~= Seq::<Seq<char>>::empty());
    while i < n
        invariant
            i <= n,
            out@ == groups_drafted(issuer@, tx@.groups, all.take(i as int), active@),
        decreases n - i,
    {
        proof {
            assert(all.take(i + 1).drop_last() =~= all.take(i as int));
            if members_of_groups(tx@.groups, all.take(i + 1)) is None {
                lemma_group_missing(tx@.groups, all, i + 1);
            }
        }
        if let Some(g) = tx.groups.get(names.at(i).as_str()) {
            let r = draft_group(issuer, g, active);
            out.put(g.name.as_str(), r);
        }
        i = i + 1;
    }
    assert(all.take(n as int) =~= all);
    out
}

#[verifier::loop_isolation(false)]
fn add_departed(tx: &Tx, d: Draft, id: &str, url: &str) -> (r: Option<Draft>)
    ensures
        opt_view(r) == departed_added(
            d@,
            tx@.provisioning_links,
            in_order(tx@.provisioning_links.dom()),
            id@,
            url@,
        ),
{
    let keys = tx.provisioning_links.keys();
    let ghost all = in_order(keys@);
    let ghost links = tx@.provisioning_links;
    let ghost d0 = d@;
    let n: usize = keys.len();
    let mut out = d;
    let mut i: usize = 0;
    assert(all.take(0) =~= Seq::<Seq<char>>::empty());
    while i < n
        invariant
            i <= n,
            departed_added(d0, links, all.take(i as int), id@, url@) == Some(out@),
        decreases n - i,
    {
        proof {
            assert(all.take(i + 1).drop_last() =~= all.take(i as int));
        }
        if let Some(l) = tx.provisioning_links.get(keys.at(i).as_str()) {
            if same(l.target.as_str(), id) {
                if !same(l.url.as_str(), url) {
                    proof {
                        lemma_departed_fails(d0, links, all, id@, url@, i + 1);
                    }
                    return None;
                }
                if same(l.kind.as_str(), "Users") {
                    if !out.people.has(l.local_id.as_str()) {
                        out.people.put(l.local_id.as_str(), draft_departed(l));
                    }
                } else if !out.others.has(l.local_id.as_str()) {
                    out.others.put(l.local_id.as_str(), draft_departed(l));
                }
            }
        }
        i = i + 1;
    }
    assert(all.take(n as int) =~= all);
    Some(out)
}

#[verifier::loop_isolation(false)]
fn append_rows(out: &mut Vec<Resource>, table: &Table<Resource>)
    ensures
        views(final(out)@) == views(old(out)@) + rows_in_order(table@),
{
    let keys = table.keys();
    let ghost all = in_order(keys@);
    let ghost v0 = views(out@);
    let n: usize = keys.len();
    let mut i: usize = 0;
    assert(v0 + rows_in_order(table@).take(0) =~= v0);
    while i < n
        invariant
            i <= n,
            views(out@) == v0 + rows_in_order(table@).take(i as int),
        decreases n - i,
    {
        if let Some(r) = table.get(keys.at(i).as_str()) {
            let ghost was = views(out@);
            let x = r.dup();
            let ghost xm = x@;
            out.push(x);
            proof {
                assert(views(out@) =~= was.push(xm));
                assert(rows_in_order(table@)[i as int] == table@[all[i as int]]);
                assert(rows_in_order(table@).take(i + 1) =~= rows_in_order(table@).take(
                    i as int,
                ).push(xm));
                assert(views(out@) =~= v0 + rows_in_order(table@).take(i + 1));
            }
        }
        i = i + 1;
    }
    assert(rows_in_order(table@).take(n as int) =~= rows_in_order(table@));
}

/// Drafts the resources of a plan.
pub fn draft_resources(tx: &Tx, issuer: &str, id: &str, target: &Target) -> (r: Result<
    Vec<Resource>,
    Error,
>)
    ensures
        match drafted(tx@, issuer@, id@, target@) {
            Ok(v) => r is Ok && views(r->Ok_0@) == v,
            Err(f) => fails(r, f),
        },
{
    let selected = match select_members(&tx.groups, &target.groups) {
        None => return Err(Error::bad("SCIM target references a missing group")),
        Some(s) => s,
    };
    let (active, people) = draft_people(tx, issuer, &selected);
    if active.len() > MAX_PLAN_USERS {
        return Err(
            Error::bad("This SCIM target profile supports at most 2000 selected users"),
        );
    }
    let others: Table<Resource> = if target.export_groups {
        draft_groups(tx, issuer, &target.groups, &active)
    } else {
        Table::new()
    };
    let all = match add_departed(tx, Draft { people, others }, id, target.url.as_str()) {
        None => return Err(
            Error::conflict(
                "Target URL changed while remote accounts are linked; configure a new target ID",
            ),
        ),
        Some(d) => d,
    };
    let people_keys = all.people.keys();
    let other_keys = all.others.keys();
    let a = people_keys.len();
    let b = other_keys.len();
    if a > MAX_PLAN_RESOURCES || b > MAX_PLAN_RESOURCES - a {
        return Err(Error::bad("SCIM plan exceeds the total resource limit"));
    }
    let mut out: Vec<Resource> = Vec::new();
    append_rows(&mut out, &all.people);
    append_rows(&mut out, &all.others);
    assert(views(Seq::<Resource>::empty()) + rows_in_order(all.people@) =~= rows_in_order(
        all.people@,
    ));
    Ok(out)
}

/// A plan for the target, or why there can be none. `fingerprint` is that of the target.
pub open spec fn planned(
    t: TxModel,
    config: ConfigModel,
    actor: PrincipalModel,
    id: Seq<char>,
    target: TargetModel,
    fingerprint: Seq<char>,
    rules: RulesModel,
) -> (TxModel, Result<PlanModel, Failure>) {
    match scim_target_check(target, rules) {
        Err(f) => (t, Err(f)),
        Ok(_) => match drafted(t, config.issuer, id, target) {
            Err(f) => (t, Err(f)),
            Ok(resources) => (
                drawn(t),
                Ok(
                    PlanModel {
                        id: next_id(t),
                        target: id,
                        actor: actor.id,
                        revision: t.revision,
                        expires_at: extended(t.now, 3600),
                        target_fingerprint: fingerprint,
                        resources,
                    },
                ),
            ),
        },
    }
}

/// A plan that a new one of this actor for this target replaces.
pub open spec fn superseded(t: TxModel, actor: Seq<char>, target: Seq<char>, k: Seq<char>) -> bool {
    let p = t.provisioning_plans[k];
    t.provisioning_plans.dom().contains(k) && !(t.provisioning_jobs.dom().contains(k) && !terminal(
        t.provisioning_jobs[k],
    )) && ((p.actor == actor && p.target == target) || p.expires_at <= t.now)
}

/// The plans that stay when a new one comes.
pub open spec fn standing_plans(t: TxModel, actor: Seq<char>, target: Seq<char>) -> Map<
    Seq<char>,
    PlanModel,
> {
    t.provisioning_plans.remove_keys(
        t.provisioning_plans.dom().filter(|k: Seq<char>| superseded(t, actor, target, k)),
    )
}

/// The store with the plan kept for review. `bytes` is its size, `sizes` those of the stored plans.
pub open spec fn kept(t: TxModel, p: PlanModel, bytes: u64, sizes: Map<Seq<char>, u64>) -> (
    TxModel,
    Result<(), Failure>,
) {
    let standing = standing_plans(t, p.actor, p.target);
    if bytes > MAX_PLAN_BYTES {
        (t, Err(Failure::Bad("SCIM plan exceeds the serialized size limit"@)))
    } else if standing.dom().len() >= MAX_RETAINED_PLANS || capped(
        total_size(sizes, in_order(standing.dom()), 0),
        bytes,
    ) > MAX_RETAINED_PLAN_BYTES {
        (
            t,
            Err(
                Failure::Bad("Too many retained SCIM plans; complete or expire older jobs"@),
            ),
        )
    } else {
        (
            audited(
                TxModel { provisioning_plans: standing.insert(p.id, p), ..t },
                p.actor,
                "provisioner.plan"@,
                p.target,
            ),
            Ok(()),
        )
    }
}

#[verifier::loop_isolation(false)]
fn find_superseded(tx: &Tx, actor: &str, target: &str) -> (r: Names)
    ensures
        r@ == tx@.provisioning_plans.dom().filter(
            |k: Seq<char>| superseded(tx@, actor@, target@, k),
        ),
{
    let keys = tx.provisioning_plans.keys();
    keys.listing();
    let ghost all = in_order(keys@);
    let ghost p = |k: Seq<char>| superseded(tx@, actor@, target@, k);
    let n: usize = keys.len();
    let mut out = Names::new();
    let mut i: usize = 0;
    assert(all.take(0).to_set().filter(p) =~= Set::<Seq<char>>::empty());
    while i < n
        invariant
            i <= n,
            out@ == all.take(i as int).to_set().filter(p),
        decreases n - i,
    {
        let key = keys.at(i).as_str();
        proof {
            lemma_take_set(all, i as int);
            assert(tx@.provisioning_plans.dom().contains(key@));
        }
        if let Some(plan) = tx.provisioning_plans.get(key) {
            let busy = match tx.provisioning_jobs.get(key) {
                Some(j) => !j.completed && !j.stale,
                None => false,
            };
            if !busy && ((same(plan.actor.as_str(), actor) && same(plan.target.as_str(), target))
                || plan.expires_at <= tx.now) {
                out.insert(key);
            }
        }
        proof {
            assert(out@ =~= all.take(i + 1).to_set().filter(p));
        }
        i = i + 1;
    }
    proof {
        assert(all.take(n as int) =~= all);
        assert(all.to_set() =~= tx@.provisioning_plans.dom());
    }
    out
}

impl Core {
    /// Drafts a plan for the target `id`.
    pub fn provisioning_plan(
        &self,
        tx: &mut Tx,
        actor: &Principal,
        id: &str,
        target: &Target,
        fingerprint: &str,
        rules: &Rules,
    ) -> (r: Result<Plan, Error>)
        ensures
            ({
                let out = planned(
                    old(tx)@,
                    self@.config,
                    actor@,
                    id@,
                    target@,
                    fingerprint@,
                    rules@,
                );
                final(tx)@ == out.0 && agrees_with(r, out.1)
            }),
    {
        if let Err(e) = target.validate(rules) {
            return Err(e);
        }
        let resources = match draft_resources(tx, self.config.issuer.as_str(), id, target) {
            Err(e) => return Err(e),
            Ok(v) => v,
        };
        let plan_id = tx.id();
        Ok(
            Plan {
                id: plan_id,
                target: id.to_owned(),
                actor: actor.id.clone(),
                revision: tx.revision,
                expires_at: tx.now.saturating_add(3600),
                target_fingerprint: fingerprint.to_owned(),
                resources,
            },
        )
    }

    /// Keeps a drafted plan, whose stored form takes `bytes` bytes, in place of the actor's earlier
    /// plan for the target.
    pub fn provisioning_keep(&self, tx: &mut Tx, plan: &Plan, bytes: u64, sizes: &Table<u64>) -> (r: Result<
        (),
        Error,
    >)
        ensures
            ({
                let out = kept(old(tx)@, plan@, bytes, sizes@);
                final(tx)@ == out.0 && agrees(r, out.1)
            }),
    {
        if bytes > MAX_PLAN_BYTES {
            return Err(Error::bad("SCIM plan exceeds the serialized size limit"));
        }
        let drop = find_superseded(tx, plan.actor.as_str(), plan.target.as_str());
        let mut plans = tx.provisioning_plans.dup();
        plans.remove_all(&drop);
        let keys = plans.keys();
        if keys.len() >= MAX_RETAINED_PLANS || sum_sizes(sizes, &keys, 0).saturating_add(bytes)
            > MAX_RETAINED_PLAN_BYTES {
            return Err(
                Error::bad("Too many retained SCIM plans; complete or expire older jobs"),
            );
        }
        plans.put(plan.id.as_str(), plan.dup());
        tx.provisioning_plans = plans;
        audit(tx, plan.actor.as_str(), "provisioner.plan", plan.target.as_str());
        Ok(())
    }
}

/// Administrators are never exported.
pub proof fn administrators_are_not_exported(
    users: Map<Seq<char>, UserModel>,
    selected: Set<Seq<char>>,
    k: Seq<char>,
)
    requires
        exported_users(users, selected).contains(k),
    ensures
        users.dom().contains(k),
        !users[k].admin,
        users[k].enabled,
        selected.contains(k),
{
}

proof fn lemma_departed_kept(
    d: DraftModel,
    links: Map<Seq<char>, LinkModel>,
    keys: Seq<Seq<char>>,
    target: Seq<char>,
    url: Seq<char>,
    i: int,
)
    requires
        departed_added(d, links, keys, target, url) is Some,
        0 <= i < keys.len(),
        links[keys[i]].target == target,
    ensures
        ({
            let all = departed_added(d, links, keys, target, url)->0;
            let l = links[keys[i]];
            if l.kind == "Users"@ {
                all.people.dom().contains(l.local_id)
            } else {
                all.others.dom().contains(l.local_id)
            }
        }),
    decreases keys.len(),
{
    if i < keys.len() - 1 {
        assert(keys.drop_last()[i] == keys[i]);
        lemma_departed_kept(d, links, keys.drop_last(), target, url, i);
    }
}

/// Every account that the target was given before stays in its next plan: ownership is kept, and
/// what is not exported any more is disabled or emptied.
pub proof fn linked_accounts_stay_planned(
    d: DraftModel,
    links: Map<Seq<char>, LinkModel>,
    keys: Seq<Seq<char>>,
    target: Seq<char>,
    url: Seq<char>,
    k: Seq<char>,
)
    requires
        departed_added(d, links, keys, target, url) is Some,
        keys.contains(k),
        links[k].target == target,
    ensures
        ({
            let all = departed_added(d, links, keys, target, url)->0;
            if links[k].kind == "Users"@ {
                all.people.dom().contains(links[k].local_id)
            } else {
                all.others.dom().contains(links[k].local_id)
            }
        }),
{
    lemma_departed_kept(d, links, keys, target, url, keys.index_of(k));
}

proof fn lemma_departed_rows(
    d: DraftModel,
    links: Map<Seq<char>, LinkModel>,
    keys: Seq<Seq<char>>,
    target: Seq<char>,
    url: Seq<char>,
)
    requires
        departed_added(d, links, keys, target, url) is Some,
        d.people.dom().finite(),
        d.others.dom().finite(),
    ensures
        ({
            let all = departed_added(d, links, keys, target, url)->0;
            &&& all.people.dom().finite()
            &&& all.others.dom().finite()
            &&& forall|x: Seq<char>| #[trigger] d.people.dom().contains(x) ==> all.people.dom().contains(x)
                && all.people[x] == d.people[x]
            &&& forall|x: Seq<char>| #[trigger] d.others.dom().contains(x) ==> all.others.dom().contains(x)
                && all.others[x] == d.others[x]
            &&& forall|x: Seq<char>| #[trigger]
                all.people.dom().contains(x) && !d.people.dom().contains(x) ==> exists|i: int|
                    0 <= i < keys.len() && links[#[trigger] keys[i]].target == target && links[keys[i]].kind
                        == "Users"@ && links[keys[i]].local_id == x && all.people[x] == departed_resource(
                        links[keys[i]],
                    )
            &&& forall|x: Seq<char>| #[trigger]
                all.others.dom().contains(x) && !d.others.dom().contains(x) ==> exists|i: int|
                    0 <= i < keys.len() && links[#[trigger] keys[i]].target == target && links[keys[i]].kind
                        != "Users"@ && links[keys[i]].local_id == x && all.others[x] == departed_resource(
                        links[keys[i]],
                    )
        }),
    decreases keys.len(),
{
    if keys.len() > 0 {
        let rest = keys.drop_last();
        lemma_departed_rows(d, links, rest, target, url);
        let before = departed_added(d, links, rest, target, url)->0;
        let all = departed_added(d, links, keys, target, url)->0;
        let l = links[keys.last()];
        assert(keys[keys.len() - 1] == keys.last());
        assert forall|x: Seq<char>| #[trigger]
            all.people.dom().contains(x) && !d.people.dom().contains(x) implies exists|i: int|
            0 <= i < keys.len() && links[#[trigger] keys[i]].target == target && links[keys[i]].kind
                == "Users"@ && links[keys[i]].local_id == x && all.people[x] == departed_resource(
                links[keys[i]],
            ) by {
            if before.people.dom().contains(x) {
                let i = choose|i: int|
                    0 <= i < rest.len() && links[#[trigger] rest[i]].target == target && links[rest[i]].kind
                        == "Users"@ && links[rest[i]].local_id == x && before.people[x]
                        == departed_resource(links[rest[i]]);
                assert(keys[i] == rest[i]);
            } else {
                let i = keys.len() - 1;
                assert(links[keys[i]].local_id == x);
            }
        }
        assert forall|x: Seq<char>| #[trigger]
            all.others.dom().contains(x) && !d.others.dom().contains(x) implies exists|i: int|
            0 <= i < keys.len() && links[#[trigger] keys[i]].target == target && links[keys[i]].kind
                != "Users"@ && links[keys[i]].local_id == x && all.others[x] == departed_resource(
                links[keys[i]],
            ) by {
            if before.others.dom().contains(x) {
                let i = choose|i: int|
                    0 <= i < rest.len() && links[#[trigger] rest[i]].target == target && links[rest[i]].kind
                        != "Users"@ && links[rest[i]].local_id == x && before.others[x]
                        == departed_resource(links[rest[i]]);
                assert(keys[i] == rest[i]);
            } else {
                let i = keys.len() - 1;
                assert(links[keys[i]].local_id == x);
            }
        }
    }
}

proof fn lemma_rows_listed(m: Map<Seq<char>, ResourceModel>, k: Seq<char>)
    requires
        m.dom().finite(),
        m.dom().contains(k),
    ensures
        exists|i: int| 0 <= i < rows_in_order(m).len() && #[trigger] rows_in_order(m)[i] == m[k],
{
    finite_sets_are_listed(m.dom());
    let names = in_order(m.dom());
    assert(names.to_set().contains(k));
    assert(names.contains(k));
    let i = names.index_of(k);
    assert(rows_in_order(m)[i] == m[k]);
}

proof fn lemma_selected(groups: Map<Seq<char>, GroupModel>, names: Seq<Seq<char>>, x: Seq<char>)
    requires
        members_of_groups(groups, names) is Some,
    ensures
        (members_of_groups(groups, names)->0).contains(x) <==> exists|i: int|
            0 <= i < names.len() && groups[#[trigger] names[i]].members.contains(x),
    decreases names.len(),
{
    if names.len() > 0 {
        let rest = names.drop_last();
        lemma_selected(groups, rest, x);
        assert(names[names.len() - 1] == names.last());
        if (members_of_groups(groups, rest)->0).contains(x) {
            let i = choose|i: int| 0 <= i < rest.len() && groups[#[trigger] rest[i]].members.contains(x);
            assert(names[i] == rest[i]);
        }
        if exists|i: int| 0 <= i < names.len() && groups[#[trigger] names[i]].members.contains(x) {
            let i = choose|i: int| 0 <= i < names.len() && groups[#[trigger] names[i]].members.contains(x);
            if i < rest.len() {
                assert(rest[i] == names[i]);
            }
        }
    }
}

/// A user belongs at a target: enabled, no administrator, and a member of one of its groups.
pub open spec fn belongs(t: TxModel, target: TargetModel, id: Seq<char>) -> bool {
    t.users.dom().contains(id) && t.users[id].enabled && !t.users[id].admin && exists|g: Seq<char>|
        target.groups.contains(g) && #[trigger] t.groups[g].members.contains(id)
}

proof fn lemma_draft(t: TxModel, issuer: Seq<char>, id: Seq<char>, target: TargetModel)
    requires
        drafted(t, issuer, id, target) is Ok,
        t.users.dom().finite(),
        target.groups.finite(),
        t.provisioning_links.dom().finite(),
    ensures
        ({
            let active = exported_users(
                t.users,
                members_of_groups(t.groups, in_order(target.groups))->0,
            );
            forall|x: Seq<char>| #[trigger] active.contains(x) <==> belongs(t, target, x)
        }),
        exported_users(t.users, members_of_groups(t.groups, in_order(target.groups))->0).finite(),
        in_order(t.provisioning_links.dom()).to_set() == t.provisioning_links.dom(),
{
    let names = in_order(target.groups);
    let selected = members_of_groups(t.groups, names)->0;
    let active = exported_users(t.users, selected);
    finite_sets_are_listed(target.groups);
    finite_sets_are_listed(t.provisioning_links.dom());
    assert(active.subset_of(t.users.dom()));
    vstd::set_lib::lemma_set_subset_finite(t.users.dom(), active);
    assert forall|x: Seq<char>| #[trigger] active.contains(x) <==> belongs(t, target, x) by {
        lemma_selected(t.groups, names, x);
        if exists|i: int| 0 <= i < names.len() && t.groups[#[trigger] names[i]].members.contains(x) {
            let i = choose|i: int|
                0 <= i < names.len() && t.groups[#[trigger] names[i]].members.contains(x);
            assert(names.contains(names[i]));
            assert(names.to_set().contains(names[i]));
            assert(target.groups.contains(names[i]));
        }
        if exists|g: Seq<char>| target.groups.contains(g) && #[trigger] t.groups[g].members.contains(x) {
            let g = choose|g: Seq<char>|
                target.groups.contains(g) && #[trigger] t.groups[g].members.contains(x);
            assert(names.to_set().contains(g));
            let i = names.index_of(g);
            assert(t.groups[names[i]].members.contains(x));
        }
    }
}

proof fn lemma_groups_finite(
    issuer: Seq<char>,
    groups: Map<Seq<char>, GroupModel>,
    names: Seq<Seq<char>>,
    active: Set<Seq<char>>,
)
    ensures
        groups_drafted(issuer, groups, names, active).dom().finite(),
    decreases names.len(),
{
    if names.len() > 0 {
        lemma_groups_finite(issuer, groups, names.drop_last(), active);
    }
}

/// Whoever was given an account at a target and does not belong there any more stays in its plans,
/// disabled: the account is not deleted and not left open.
pub proof fn who_left_is_disabled(
    t: TxModel,
    issuer: Seq<char>,
    id: Seq<char>,
    target: TargetModel,
    k: Seq<char>,
)
    requires
        drafted(t, issuer, id, target) is Ok,
        t.users.dom().finite(),
        target.groups.finite(),
        t.provisioning_links.dom().finite(),
        t.provisioning_links.dom().contains(k),
        t.provisioning_links[k].target == id,
        t.provisioning_links[k].kind == "Users"@,
        !belongs(t, target, t.provisioning_links[k].local_id),
        forall|x: Seq<char>| #[trigger]
            t.provisioning_links.dom().contains(x) ==> t.provisioning_links[x].body is Object,
    ensures
        exists|i: int|
            {
                let r = #[trigger] (drafted(t, issuer, id, target)->Ok_0)[i];
                &&& 0 <= i < (drafted(t, issuer, id, target)->Ok_0).len()
                &&& r.kind == "Users"@
                &&& r.local_id == t.provisioning_links[k].local_id
                &&& r.body.member("active"@) == Some(JsonModel::Bool(false))
            },
{
    lemma_draft(t, issuer, id, target);
    let names = in_order(target.groups);
    let active = exported_users(t.users, members_of_groups(t.groups, names)->0);
    let links = t.provisioning_links;
    let keys = in_order(links.dom());
    let d = DraftModel {
        people: people_drafted(issuer, t.users, active),
        others: if target.export_groups {
            groups_drafted(issuer, t.groups, names, active)
        } else {
            Map::empty()
        },
    };
    assert(d.people.dom() =~= active);
    lemma_groups_finite(issuer, t.groups, names, active);
    lemma_departed_rows(d, links, keys, id, target.url);
    let all = departed_added(d, links, keys, id, target.url)->0;
    assert(keys.to_set().contains(k));
    lemma_departed_kept(d, links, keys, id, target.url, keys.index_of(k));
    let x = links[k].local_id;
    assert(!active.contains(x));
    assert(!d.people.dom().contains(x));
    let j = choose|j: int|
        0 <= j < keys.len() && links[#[trigger] keys[j]].target == id && links[keys[j]].kind == "Users"@
            && links[keys[j]].local_id == x && all.people[x] == departed_resource(links[keys[j]]);
    assert(keys.contains(keys[j]));
    assert(keys.to_set().contains(keys[j]));
    let l = links[keys[j]];
    a_member_that_is_set_is_found(l.body->Object_0, "active"@, JsonModel::Bool(false), "active"@);
    lemma_rows_listed(all.people, x);
    let i = choose|i: int| 0 <= i < rows_in_order(all.people).len() && #[trigger] rows_in_order(
        all.people,
    )[i] == all.people[x];
    assert((drafted(t, issuer, id, target)->Ok_0)[i] == all.people[x]);
}

/// A group that was given to a target and is not exported any more stays in its plans, emptied.
pub proof fn groups_that_left_are_emptied(
    t: TxModel,
    issuer: Seq<char>,
    id: Seq<char>,
    target: TargetModel,
    k: Seq<char>,
)
    requires
        drafted(t, issuer, id, target) is Ok,
        t.users.dom().finite(),
        target.groups.finite(),
        t.provisioning_links.dom().finite(),
        t.provisioning_links.dom().contains(k),
        t.provisioning_links[k].target == id,
        t.provisioning_links[k].kind == "Groups"@,
        !target.export_groups,
        forall|x: Seq<char>| #[trigger]
            t.provisioning_links.dom().contains(x) ==> t.provisioning_links[x].body is Object,
    ensures
        exists|i: int|
            {
                let r = #[trigger] (drafted(t, issuer, id, target)->Ok_0)[i];
                &&& 0 <= i < (drafted(t, issuer, id, target)->Ok_0).len()
                &&& r.local_id == t.provisioning_links[k].local_id
                &&& r.member_ids.len() == 0
                &&& r.body.member("members"@) == Some(JsonModel::Array(Seq::empty()))
            },
{
    reveal_strlit("Groups");
    reveal_strlit("Users");
    assert("Groups"@.len() == 6 && "Users"@.len() == 5);
    lemma_draft(t, issuer, id, target);
    let names = in_order(target.groups);
    let active = exported_users(t.users, members_of_groups(t.groups, names)->0);
    let links = t.provisioning_links;
    let keys = in_order(links.dom());
    let d = DraftModel { people: people_drafted(issuer, t.users, active), others: Map::empty() };
    assert(d.people.dom() =~= active);
    lemma_departed_rows(d, links, keys, id, target.url);
    let all = departed_added(d, links, keys, id, target.url)->0;
    assert(keys.to_set().contains(k));
    lemma_departed_kept(d, links, keys, id, target.url, keys.index_of(k));
    let x = links[k].local_id;
    assert(!d.others.dom().contains(x));
    let j = choose|j: int|
        0 <= j < keys.len() && links[#[trigger] keys[j]].target == id && links[keys[j]].kind != "Users"@
            && links[keys[j]].local_id == x && all.others[x] == departed_resource(links[keys[j]]);
    assert(keys.contains(keys[j]));
    assert(keys.to_set().contains(keys[j]));
    let l = links[keys[j]];
    a_member_that_is_set_is_found(
        l.body->Object_0,
        "members"@,
        JsonModel::Array(Seq::empty()),
        "members"@,
    );
    lemma_rows_listed(all.others, x);
    let i = choose|i: int| 0 <= i < rows_in_order(all.others).len() && #[trigger] rows_in_order(
        all.others,
    )[i] == all.others[x];
    let n = rows_in_order(all.people).len() + i;
    assert((drafted(t, issuer, id, target)->Ok_0)[n] == all.others[x]);
}

/// Whoever belongs at a target is planned as an open account there, under the id, the names and the
/// address that the directory has.
pub proof fn who_belongs_gets_an_account(
    t: TxModel,
    issuer: Seq<char>,
    id: Seq<char>,
    target: TargetModel,
    x: Seq<char>,
)
    requires
        drafted(t, issuer, id, target) is Ok,
        t.users.dom().finite(),
        target.groups.finite(),
        t.provisioning_links.dom().finite(),
        belongs(t, target, x),
    ensures
        exists|i: int|
            {
                let r = #[trigger] (drafted(t, issuer, id, target)->Ok_0)[i];
                &&& 0 <= i < (drafted(t, issuer, id, target)->Ok_0).len()
                &&& r.kind == "Users"@
                &&& r.local_id == x
                &&& account_of(r.body, issuer, x, t.users[x])
            },
{
    lemma_draft(t, issuer, id, target);
    let names = in_order(target.groups);
    let active = exported_users(t.users, members_of_groups(t.groups, names)->0);
    let links = t.provisioning_links;
    let keys = in_order(links.dom());
    let d = DraftModel {
        people: people_drafted(issuer, t.users, active),
        others: if target.export_groups {
            groups_drafted(issuer, t.groups, names, active)
        } else {
            Map::empty()
        },
    };
    assert(d.people.dom() =~= active);
    lemma_groups_finite(issuer, t.groups, names, active);
    lemma_departed_rows(d, links, keys, id, target.url);
    let all = departed_added(d, links, keys, id, target.url)->0;
    assert(d.people.dom().contains(x));
    lemma_account(issuer, x, t.users[x]);
    lemma_rows_listed(all.people, x);
    let i = choose|i: int| 0 <= i < rows_in_order(all.people).len() && #[trigger] rows_in_order(
        all.people,
    )[i] == all.people[x];
    assert((drafted(t, issuer, id, target)->Ok_0)[i] == all.people[x]);
}

/// The body is that of the open account of the user `u`.
pub open spec fn account_of(body: JsonModel, issuer: Seq<char>, id: Seq<char>, u: UserModel) -> bool {
    &&& body.member("active"@) == Some(JsonModel::Bool(true))
    &&& body.member("externalId"@) == Some(
        JsonModel::Text("urn:riauth:"@ + digest_of(issuer) + ":Users:"@ + id),
    )
    &&& body.member("userName"@) == Some(JsonModel::Text(u.username))
    &&& body.member("displayName"@) == Some(JsonModel::Text(u.display_name))
    &&& u.email is None ==> body.member("emails"@) == Some(JsonModel::Array(Seq::empty()))
    &&& u.email matches Some(e) ==> body.member("emails"@) == Some(
        JsonModel::Array(
            seq![
                JsonModel::Object(
                    seq![("value"@, JsonModel::Text(e)), ("primary"@, JsonModel::Bool(true))],
                ),
            ],
        ),
    )
}

proof fn lemma_account(issuer: Seq<char>, id: Seq<char>, u: UserModel)
    ensures
        account_of(user_resource(issuer, id, u).body, issuer, id, u),
{
    reveal_strlit("schemas");
    reveal_strlit("externalId");
    reveal_strlit("userName");
    reveal_strlit("displayName");
    reveal_strlit("active");
    reveal_strlit("emails");
    let m = user_resource(issuer, id, u).body->Object_0;
    let m1 = m.drop_first();
    let m2 = m1.drop_first();
    let m3 = m2.drop_first();
    let m4 = m3.drop_first();
    let m5 = m4.drop_first();
    assert(m1[0] == m[1] && m2[0] == m[2] && m3[0] == m[3] && m4[0] == m[4] && m5[0] == m[5]);
    assert("schemas"@.len() == 7 && "externalId"@.len() == 10 && "userName"@.len() == 8);
    assert("displayName"@.len() == 11 && "active"@.len() == 6 && "emails"@.len() == 6);
    assert("active"@[0] == 'a' && "emails"@[0] == 'e');
    assert(lookup(m, "externalId"@) == lookup(m1, "externalId"@));
    assert(lookup(m, "userName"@) == lookup(m1, "userName"@));
    assert(lookup(m1, "userName"@) == lookup(m2, "userName"@));
    assert(lookup(m, "displayName"@) == lookup(m1, "displayName"@));
    assert(lookup(m1, "displayName"@) == lookup(m2, "displayName"@));
    assert(lookup(m2, "displayName"@) == lookup(m3, "displayName"@));
    assert(lookup(m, "active"@) == lookup(m1, "active"@));
    assert(lookup(m1, "active"@) == lookup(m2, "active"@));
    assert(lookup(m2, "active"@) == lookup(m3, "active"@));
    assert(lookup(m3, "active"@) == lookup(m4, "active"@));
    assert(lookup(m, "emails"@) == lookup(m1, "emails"@));
    assert(lookup(m1, "emails"@) == lookup(m2, "emails"@));
    assert(lookup(m2, "emails"@) == lookup(m3, "emails"@));
    assert(lookup(m3, "emails"@) == lookup(m4, "emails"@));
    assert(lookup(m4, "emails"@) == lookup(m5, "emails"@));
}

/// A plan is the actor's, for the target as it is now, and can be applied for an hour.
pub proof fn plans_are_for_one_hour(
    t: TxModel,
    config: ConfigModel,
    actor: PrincipalModel,
    id: Seq<char>,
    target: TargetModel,
    fingerprint: Seq<char>,
    rules: RulesModel,
)
    requires
        planned(t, config, actor, id, target, fingerprint, rules).1 is Ok,
        t.now <= u64::MAX - 3600,
    ensures
        ({
            let p = planned(t, config, actor, id, target, fingerprint, rules).1->Ok_0;
            &&& p.target == id
            &&& p.actor == actor.id
            &&& p.expires_at == t.now + 3600
            &&& p.target_fingerprint == fingerprint
            &&& p.revision == t.revision
            &&& p.id == next_id(t)
            &&& drafted(t, config.issuer, id, target) == Ok::<Seq<ResourceModel>, Failure>(p.resources)
            &&& scim_target_check(target, rules) is Ok
        }),
{
}

/// A plan that is kept can be found, and takes the place of what the same actor had for the same
/// target; plans of others that still stand, and plans with an unfinished job, stay.
pub proof fn plans_replace_their_predecessors(
    t: TxModel,
    p: PlanModel,
    bytes: u64,
    sizes: Map<Seq<char>, u64>,
    k: Seq<char>,
)
    requires
        kept(t, p, bytes, sizes).1 is Ok,
        k != p.id,
    ensures
        ({
            let u = kept(t, p, bytes, sizes).0;
            &&& bytes <= MAX_PLAN_BYTES
            &&& u.provisioning_plans.dom().contains(p.id)
            &&& u.provisioning_plans[p.id] == p
            &&& u.provisioning_plans.dom().contains(k) ==> t.provisioning_plans.dom().contains(k)
                && u.provisioning_plans[k] == t.provisioning_plans[k]
            &&& t.provisioning_plans.dom().contains(k) && t.provisioning_plans[k].expires_at > t.now && (
            t.provisioning_plans[k].actor != p.actor || t.provisioning_plans[k].target != p.target)
                ==> u.provisioning_plans.dom().contains(k)
            &&& t.provisioning_plans.dom().contains(k) && t.provisioning_jobs.dom().contains(k) && !terminal(
                t.provisioning_jobs[k],
            ) ==> u.provisioning_plans.dom().contains(k)
            &&& t.provisioning_plans.dom().contains(k) && t.provisioning_plans[k].actor == p.actor
                && t.provisioning_plans[k].target == p.target && !t.provisioning_jobs.dom().contains(k)
                ==> !u.provisioning_plans.dom().contains(k)
        }),
{
}

/// A group is sent with its name and with those of its members that are sent themselves.
pub proof fn groups_are_sent_with_their_members(
    issuer: Seq<char>,
    g: GroupModel,
    active: Set<Seq<char>>,
    id: Seq<char>,
)
    requires
        g.members.finite(),
    ensures
        ({
            let r = group_resource(issuer, g, active);
            &&& r.kind == "Groups"@
            &&& r.local_id == g.name
            &&& r.body.member("displayName"@) == Some(JsonModel::Text(g.name))
            &&& r.member_ids.contains(id) <==> g.members.contains(id) && active.contains(id)
        }),
{
    reveal_with_fuel(crate::json::lookup, 4);
    reveal_strlit("schemas");
    reveal_strlit("externalId");
    reveal_strlit("displayName");
    assert("schemas"@.len() == 7 && "externalId"@.len() == 10 && "displayName"@.len() == 11);
    let m = group_resource(issuer, g, active).body->Object_0;
    assert(m.drop_first().drop_first()[0] == m[2]);
    assert(m.drop_first()[0] == m[1]);
    let both = g.members.intersect(active);
    finite_sets_are_listed(both);
    assert(in_order(both).to_set().contains(id) <==> both.contains(id));
}

} // verus!
