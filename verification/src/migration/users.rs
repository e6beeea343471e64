//! Exported users, the conversion as a whole, and its report.
use crate::error::{Error, Failure, agrees_with, fails};
use crate::json::{Json, JsonModel, items_of, text_of};
use crate::migration::{ClientSpec, ClientSpecModel, GroupSpec, GroupSpecModel, Import, ImportModel, Manifest, ManifestModel, PasswordReferenceModel, Reviews, ReviewsModel, SourceLink, SourceLinkModel, UserSpec, UserSpecModel, field, field_of, flag_is, get_filled, has_items, holds_items, id_in, identifier, ids, ids_of, key_set, keys_in, member_is, nonempty_text, rows, rows_of};
use crate::migration::clients::{ConvertedModel, applications_read, note, noted, providers_read, read_applications, read_providers, read_sources, sources_read};
use crate::migration::groups::{all_ancestors, find_ancestors, groups_read, parents_of, read_groups};
use crate::names::{Names, add_all, in_order};
use crate::outside::{digest, digest_of};
use crate::table::{Row, Table, dup_list, views};
use crate::text::{byte_count, byte_len, chars_of, concat, concat3, has_control, opt_text, same, some_control};
use vstd::prelude::*;
use vstd::string::*;

verus! {

/// The groups with the ancestors of each of `ids`.
pub open spec fn with_ancestors(
    ancestors: Map<Seq<char>, Set<Seq<char>>>,
    base: Set<Seq<char>>,
    ids: Seq<Seq<char>>,
) -> Set<Seq<char>>
    decreases ids.len(),
{
    if ids.len() == 0 {
        base
    } else {
        with_ancestors(ancestors, base, ids.drop_last()).union(
            parents_of(ancestors, ids.last()),
        )
    }
}

#[verifier::loop_isolation(false)]
fn add_ancestors(ancestors: &Table<Names>, direct: &Names) -> (r: Names)
    ensures
        r@ == with_ancestors(ancestors@, direct@, in_order(direct@)),
{
    let ghost all = in_order(direct@);
    let n: usize = direct.len();
    let mut out = direct.copy();
    let mut i: usize = 0;
    assert(all.take(0) =~= Seq::<Seq<char>>::empty());
    while i < n
        invariant
            i <= n,
            out@ == with_ancestors(ancestors@, direct@, all.take(i as int)),
        decreases n - i,
    {
        let ghost was = out@;
        proof {
            assert(all.take(i + 1).drop_last() =~= all.take(i as int));
        }
        match ancestors.get(direct.at(i).as_str()) {
            Some(more) => {
                add_all(&mut out, more);
            },
            None => {
                assert(was.union(Set::<Seq<char>>::empty()) =~= was);
            },
        }
        i = i + 1;
    }
    assert(all.take(n as int) =~= all);
    out
}

/// The groups with `user` in the first one of that name.
pub open spec fn enrolled(groups: Seq<GroupSpecModel>, name: Seq<char>, user: Seq<char>) -> Seq<
    GroupSpecModel,
>
    decreases groups.len(),
{
    if groups.len() == 0 {
        groups
    } else if groups[0].name == name {
        groups.update(0, GroupSpecModel { name, members: groups[0].members.insert(user) })
    } else {
        seq![groups[0]] + enrolled(groups.drop_first(), name, user)
    }
}

proof fn lemma_enrolled(groups: Seq<GroupSpecModel>, name: Seq<char>, user: Seq<char>, i: int)
    requires
        0 <= i <= groups.len(),
        forall|j: int| 0 <= j < i ==> (#[trigger] groups[j]).name != name,
        i < groups.len() ==> groups[i].name == name,
    ensures
        enrolled(groups, name, user) == if i < groups.len() {
            groups.update(i, GroupSpecModel { name, members: groups[i].members.insert(user) })
        } else {
            groups
        },
    decreases groups.len(),
{
    if groups.len() > 0 && i > 0 {
        let rest = groups.drop_first();
        assert(groups[0].name != name);
        assert forall|j: int| 0 <= j < i - 1 implies (#[trigger] rest[j]).name != name by {
            assert(rest[j] == groups[j + 1]);
        }
        lemma_enrolled(rest, name, user, i - 1);
        if i < groups.len() {
            assert(rest[i - 1] == groups[i]);
            assert(enrolled(groups, name, user) =~= groups.update(
                i,
                GroupSpecModel { name, members: groups[i].members.insert(user) },
            ));
        } else {
            assert(enrolled(groups, name, user) =~= groups);
        }
    }
}

#[verifier::loop_isolation(false)]
fn enroll(groups: &mut Vec<GroupSpec>, name: &str, user: &str)
    ensures
        views(final(groups)@) == enrolled(views(old(groups)@), name@, user@),
{
    let ghost g0 = views(groups@);
    let mut i: usize = 0;
    while i < groups.len()
        invariant
            i <= groups.len(),
            views(groups@) == g0,
            forall|j: int| 0 <= j < i ==> (#[trigger] g0[j]).name != name@,
        decreases groups.len() - i,
    {
        assert(g0[i as int] == groups[i as int]@);
        if same(groups[i].name.as_str(), name) {
            let mut g = groups[i].dup();
            g.members.insert(user);
            let ghost gm = g@;
            groups.set(i, g);
            proof {
                lemma_enrolled(g0, name@, user@, i as int);
                assert(views(groups@) =~= g0.update(i as int, gm));
            }
            return;
        }
        i = i + 1;
    }
    proof {
        lemma_enrolled(g0, name@, user@, i as int);
    }
}

/// The groups after `user` joined the groups of these ids.
pub open spec fn enrolled_all(
    groups: Seq<GroupSpecModel>,
    names: Map<Seq<char>, Seq<char>>,
    ids: Seq<Seq<char>>,
    user: Seq<char>,
) -> Result<Seq<GroupSpecModel>, Failure>
    decreases ids.len(),
{
    if ids.len() == 0 {
        Ok(groups)
    } else {
        match enrolled_all(groups, names, ids.drop_last(), user) {
            Err(f) => Err(f),
            Ok(g) => if names.dom().contains(ids.last()) {
                Ok(enrolled(g, names[ids.last()], user))
            } else {
                Err(Failure::Bad("User references unexported group"@))
            },
        }
    }
}

proof fn lemma_enrolled_fail(
    groups: Seq<GroupSpecModel>,
    names: Map<Seq<char>, Seq<char>>,
    ids: Seq<Seq<char>>,
    user: Seq<char>,
    n: int,
)
    requires
        0 <= n <= ids.len(),
        enrolled_all(groups, names, ids.take(n), user) is Err,
    ensures
        enrolled_all(groups, names, ids, user) == enrolled_all(groups, names, ids.take(n), user),
    decreases ids.len() - n,
{
    if n < ids.len() {
        assert(ids.take(n + 1).drop_last() =~= ids.take(n));
        lemma_enrolled_fail(groups, names, ids, user, n + 1);
    } else {
        assert(ids.take(n) =~= ids);
    }
}

#[verifier::loop_isolation(false)]
fn enroll_all(
    groups: &mut Vec<GroupSpec>,
    names: &Table<String>,
    ids: &Names,
    user: &str,
) -> (e: Result<(), Error>)
    ensures
        match enrolled_all(views(old(groups)@), names@, in_order(ids@), user@) {
            Ok(g) => e is Ok && views(final(groups)@) == g,
            Err(f) => fails(e, f),
        },
{
    let ghost all = in_order(ids@);
    let ghost g0 = views(groups@);
    let n: usize = ids.len();
    let mut i: usize = 0;
    assert(all.take(0) =~= Seq::<Seq<char>>::empty());
    while i < n
        invariant
            i <= n,
            enrolled_all(g0, names@, all.take(i as int), user@) == Ok::<
                Seq<GroupSpecModel>,
                Failure,
            >(views(groups@)),
        decreases n - i,
    {
        proof {
            assert(all.take(i + 1).drop_last() =~= all.take(i as int));
        }
        match names.get(ids.at(i).as_str()) {
            None => {
                proof {
                    lemma_enrolled_fail(g0, names@, all, user@, i + 1);
                }
                return Err(Error::bad("User references unexported group"));
            },
            Some(name) => {
                enroll(groups, name.as_str(), user);
            },
        }
        i = i + 1;
    }
    assert(all.take(n as int) =~= all);
    Ok(())
}

/// How a client that names its users by `mode` names this one, `None` for an unknown mode.
pub open spec fn subject_of(user: JsonModel, username: Seq<char>, mode: Seq<char>) -> Result<
    Option<Seq<char>>,
    Failure,
> {
    if mode == "hashed_user_id"@ {
        some_field(user, "uid"@)
    } else if mode == "user_id"@ {
        match id_in(user.member("pk"@)) {
            Err(f) => Err(f),
            Ok(s) => Ok(Some(s)),
        }
    } else if mode == "user_uuid"@ {
        some_field(user, "uuid"@)
    } else if mode == "user_username"@ {
        Ok(Some(username))
    } else if mode == "user_email"@ {
        some_field(user, "email"@)
    } else if mode == "user_upn"@ {
        match field_of(user, "uid"@) {
            Err(f) => Err(f),
            Ok(uid) => Ok(
                Some(
                    match user.member("attributes"@) {
                        Some(a) => match text_of(a, "upn"@) {
                            Some(s) => s,
                            None => uid,
                        },
                        None => uid,
                    },
                ),
            ),
        }
    } else {
        Ok(None)
    }
}

pub open spec fn some_field(v: JsonModel, name: Seq<char>) -> Result<Option<Seq<char>>, Failure> {
    match field_of(v, name) {
        Err(f) => Err(f),
        Ok(s) => Ok(Some(s)),
    }
}

fn get_some_field(v: &Json, name: &str) -> (r: Result<Option<String>, Error>)
    ensures
        match some_field(v@, name@) {
            Ok(x) => r is Ok && opt_text(r->Ok_0) == x,
            Err(f) => fails(r, f),
        },
{
    match field(v, name) {
        Err(e) => Err(e),
        Ok(s) => Ok(Some(s)),
    }
}

fn find_subject(user: &Json, username: &str, mode: &str) -> (r: Result<Option<String>, Error>)
    ensures
        match subject_of(user@, username@, mode@) {
            Ok(x) => r is Ok && opt_text(r->Ok_0) == x,
            Err(f) => fails(r, f),
        },
{
    if same(mode, "hashed_user_id") {
        return get_some_field(user, "uid");
    }
    if same(mode, "user_id") {
        return match identifier(user.get("pk")) {
            Err(e) => Err(e),
            Ok(s) => Ok(Some(s)),
        };
    }
    if same(mode, "user_uuid") {
        return get_some_field(user, "uuid");
    }
    if same(mode, "user_username") {
        return Ok(Some(username.to_owned()));
    }
    if same(mode, "user_email") {
        return get_some_field(user, "email");
    }
    if same(mode, "user_upn") {
        let uid = match field(user, "uid") {
            Err(e) => return Err(e),
            Ok(s) => s,
        };
        return match user.get("attributes") {
            Some(a) => match a.get_text("upn") {
                Some(s) => Ok(Some(s.clone())),
                None => Ok(Some(uid)),
            },
            None => Ok(Some(uid)),
        };
    }
    Ok(None)
}

/// A subject that OpenID Connect can carry.
pub open spec fn good_subject(s: Seq<char>) -> bool {
    s.len() > 0 && byte_count(s) <= 255 && all_ascii(s) && !some_control(s)
}

pub open spec fn all_ascii(s: Seq<char>) -> bool {
    forall|i: int| 0 <= i < s.len() ==> #[trigger] s[i] <= '\u{7f}'
}

fn is_good_subject(s: &str) -> (r: bool)
    ensures
        r == good_subject(s@),
{
    if s.is_empty() || byte_len(s) > 255 || has_control(s) {
        return false;
    }
    let v = chars_of(s);
    let mut i: usize = 0;
    while i < v.len()
        invariant
            i <= v.len(),
            v@ == s@,
            forall|j: int| 0 <= j < i ==> #[trigger] s@[j] <= '\u{7f}',
        decreases v.len() - i,
    {
        if v[i] > '\u{7f}' {
            assert(s@[i as int] > '\u{7f}');
            return false;
        }
        i = i + 1;
    }
    true
}

/// The subjects of a user, and the blockers that they add.
pub struct Subjects {
    pub subjects: Table<String>,
    pub blockers: Names,
}

/// What a [`Subjects`] holds.
pub struct SubjectsModel {
    pub subjects: Map<Seq<char>, Seq<char>>,
    pub blockers: Set<Seq<char>>,
}

impl View for Subjects {
    type V = SubjectsModel;

    open spec fn view(&self) -> SubjectsModel {
        SubjectsModel {
            subjects: self.subjects@,
            blockers: self.blockers@,
        }
    }
}

impl Row for Subjects {
    fn dup(&self) -> (r: Self) {
        Subjects {
            subjects: self.subjects.dup(),
            blockers: self.blockers.copy(),
        }
    }
}

pub open spec fn subjects_read(
    s: SubjectsModel,
    user: JsonModel,
    username: Seq<char>,
    modes: Map<Seq<char>, Seq<char>>,
    cids: Seq<Seq<char>>,
) -> Result<SubjectsModel, Failure>
    decreases cids.len(),
{
    if cids.len() == 0 {
        Ok(s)
    } else {
        match subjects_read(s, user, username, modes, cids.drop_last()) {
            Err(f) => Err(f),
            Ok(x) => {
                let cid = cids.last();
                match subject_of(user, username, modes[cid]) {
                    Err(f) => Err(f),
                    Ok(None) => Ok(
                        SubjectsModel {
                            blockers: x.blockers.insert(
                                cid + ": unsupported subject mode "@ + modes[cid],
                            ),
                            ..x
                        },
                    ),
                    Ok(Some(subject)) => Ok(
                        SubjectsModel {
                            subjects: x.subjects.insert(cid, subject),
                            blockers: noted(
                                x.blockers,
                                !good_subject(subject),
                                username + "/"@ + cid
                                    + ": subject is outside the supported OIDC format"@,
                            ),
                        },
                    ),
                }
            },
        }
    }
}

proof fn lemma_subjects_fail(
    s: SubjectsModel,
    user: JsonModel,
    username: Seq<char>,
    modes: Map<Seq<char>, Seq<char>>,
    cids: Seq<Seq<char>>,
    n: int,
)
    requires
        0 <= n <= cids.len(),
        subjects_read(s, user, username, modes, cids.take(n)) is Err,
    ensures
        subjects_read(s, user, username, modes, cids) == subjects_read(
            s,
            user,
            username,
            modes,
            cids.take(n),
        ),
    decreases cids.len() - n,
{
    if n < cids.len() {
        assert(cids.take(n + 1).drop_last() =~= cids.take(n));
        lemma_subjects_fail(s, user, username, modes, cids, n + 1);
    } else {
        assert(cids.take(n) =~= cids);
    }
}

#[verifier::loop_isolation(false)]
fn read_subjects(blockers: Names, user: &Json, username: &str, modes: &Table<String>) -> (r: Result<
    Subjects,
    Error,
>)
    ensures
        agrees_with(
            r,
            subjects_read(
                SubjectsModel { subjects: Map::empty(), blockers: blockers@ },
                user@,
                username@,
                modes@,
                in_order(modes@.dom()),
            ),
        ),
{
    let keys = modes.keys();
    let ghost all = in_order(keys@);
    let mut out = Subjects { subjects: Table::new(), blockers };
    let ghost s0 = out@;
    let n: usize = keys.len();
    let mut i: usize = 0;
    assert(all.take(0) =~= Seq::<Seq<char>>::empty());
    while i < n
        invariant
            i <= n,
            subjects_read(s0, user@, username@, modes@, all.take(i as int)) == Ok::<
                SubjectsModel,
                Failure,
            >(out@),
        decreases n - i,
    {
        proof {
            assert(all.take(i + 1).drop_last() =~= all.take(i as int));
        }
        let cid = keys.at(i).as_str();
        if let Some(mode) = modes.get(cid) {
            match find_subject(user, username, mode.as_str()) {
                Err(e) => {
                    proof {
                        lemma_subjects_fail(s0, user@, username@, modes@, all, i + 1);
                    }
                    return Err(e);
                },
                Ok(None) => {
                    let m = concat3(cid, ": unsupported subject mode ", mode.as_str());
                    out.blockers.insert(m.as_str());
                },
                Ok(Some(subject)) => {
                    let who = concat3(username, "/", cid);
                    note(
                        &mut out.blockers,
                        !is_good_subject(subject.as_str()),
                        who.as_str(),
                        ": subject is outside the supported OIDC format",
                    );
                    out.subjects.put(cid, subject);
                },
            }
        }
        i = i + 1;
    }
    assert(all.take(n as int) =~= all);
    Ok(out)
}

/// The groups and users that were converted so far, and the blockers.
pub struct People {
    pub groups: Vec<GroupSpec>,
    pub users: Vec<UserSpec>,
    pub blockers: Names,
}

/// What a [`People`] holds.
pub struct PeopleModel {
    pub groups: Seq<GroupSpecModel>,
    pub users: Seq<UserSpecModel>,
    pub blockers: Set<Seq<char>>,
}

impl View for People {
    type V = PeopleModel;

    open spec fn view(&self) -> PeopleModel {
        PeopleModel {
            groups: crate::table::views(self.groups@),
            users: crate::table::views(self.users@),
            blockers: self.blockers@,
        }
    }
}

impl Row for People {
    fn dup(&self) -> (r: Self) {
        People {
            groups: crate::table::dup_list(&self.groups),
            users: crate::table::dup_list(&self.users),
            blockers: self.blockers.copy(),
        }
    }
}

/// What the conversion of a user reads besides their row.
pub struct Directory {
    pub names: Table<String>,
    pub ancestors: Table<Names>,
    pub modes: Table<String>,
}

/// What a [`Directory`] holds.
pub struct DirectoryModel {
    pub names: Map<Seq<char>, Seq<char>>,
    pub ancestors: Map<Seq<char>, Set<Seq<char>>>,
    pub modes: Map<Seq<char>, Seq<char>>,
}

impl View for Directory {
    type V = DirectoryModel;

    open spec fn view(&self) -> DirectoryModel {
        DirectoryModel {
            names: self.names@,
            ancestors: self.ancestors@,
            modes: self.modes@,
        }
    }
}

impl Row for Directory {
    fn dup(&self) -> (r: Self) {
        Directory {
            names: self.names.dup(),
            ancestors: self.ancestors.dup(),
            modes: self.modes.dup(),
        }
    }
}

/// The user has a link to an upstream source.
pub open spec fn linked(links: Seq<SourceLinkModel>, username: Seq<char>) -> bool {
    exists|i: int| 0 <= i < links.len() && (#[trigger] links[i]).username == username
}

fn is_linked(links: &Vec<SourceLink>, username: &str) -> (r: bool)
    ensures
        r == linked(views(links@), username@),
{
    let mut i: usize = 0;
    while i < links.len()
        invariant
            i <= links.len(),
            forall|j: int| 0 <= j < i ==> (#[trigger] views(links@)[j]).username != username@,
        decreases links.len() - i,
    {
        assert(views(links@)[i as int] == links[i as int]@);
        if same(links[i].username.as_str(), username) {
            return true;
        }
        i = i + 1;
    }
    false
}

/// The blockers that a user's row adds.
pub open spec fn user_blockers(
    s: Set<Seq<char>>,
    user: JsonModel,
    username: Seq<char>,
    has_password: bool,
    external: bool,
) -> Set<Seq<char>> {
    let a = noted(
        s,
        !has_password && !external,
        username
            + ": supply a password/password-hash reference or complete password reset before migration"@,
    );
    let b = noted(
        a,
        text_of(user, "type"@) is Some && text_of(user, "type"@) != Some("internal"@) && !external,
        username
            + ": external/service identity requires explicit source or service-account migration"@,
    );
    noted(
        b,
        has_items(user, "roles"@),
        username
            + ": Authentik administrative roles require explicit agent permission migration"@,
    )
}

fn note_user(s: &mut Names, user: &Json, username: &str, has_password: bool, external: bool)
    ensures
        final(s)@ == user_blockers(old(s)@, user@, username@, has_password, external),
{
    note(
        s,
        !has_password && !external,
        username,
        ": supply a password/password-hash reference or complete password reset before migration",
    );
    let foreign = user.get_text("type").is_some() && !member_is(user, "type", "internal");
    note(
        s,
        foreign && !external,
        username,
        ": external/service identity requires explicit source or service-account migration",
    );
    note(
        s,
        holds_items(user, "roles"),
        username,
        ": Authentik administrative roles require explicit agent permission migration",
    );
}

/// The user that a row becomes. Nobody is imported as an administrator.
pub open spec fn user_of(
    user: JsonModel,
    username: Seq<char>,
    pk: Seq<char>,
    attributes: JsonModel,
    subjects: Map<Seq<char>, Seq<char>>,
    password: Option<PasswordReferenceModel>,
    totp: Option<PasswordReferenceModel>,
    external: bool,
) -> UserSpecModel {
    UserSpecModel {
        password_disabled: external && password is None,
        totp_ref: match totp {
            Some(t) => Some(t.reference),
            None => None,
        },
        totp_version: match totp {
            Some(t) => Some(t.version),
            None => None,
        },
        id: "authentik-"@ + pk,
        username,
        display_name: match nonempty_text(user, "name"@) {
            Some(n) => n,
            None => username,
        },
        email: nonempty_text(user, "email"@),
        email_verified: false,
        enabled: user.member("is_active"@) == Some(JsonModel::Bool(true)),
        admin: false,
        attributes,
        subjects,
        password_ref: match password {
            Some(p) => if p.hashed {
                None
            } else {
                Some(p.reference)
            },
            None => None,
        },
        password_hash_ref: match password {
            Some(p) => if p.hashed {
                Some(p.reference)
            } else {
                None
            },
            None => None,
        },
        password_version: match password {
            Some(p) => Some(p.version),
            None => None,
        },
    }
}

/// The row of a key, if there is one.
pub open spec fn row_of<V>(m: Map<Seq<char>, V>, k: Seq<char>) -> Option<V> {
    if m.dom().contains(k) {
        Some(m[k])
    } else {
        None
    }
}

/// One more exported user.
pub open spec fn user_added(
    s: PeopleModel,
    user: JsonModel,
    input: ImportModel,
    dir: DirectoryModel,
) -> Result<PeopleModel, Failure> {
    match field_of(user, "username"@) {
        Err(f) => Err(f),
        Ok(username) => {
            let password = row_of(input.passwords, username);
            let external = text_of(user, "type"@) == Some("external"@) && linked(
                input.source_links,
                username,
            );
            let noted = user_blockers(s.blockers, user, username, password is Some, external);
            match ids_of(user.member("groups"@)) {
                Err(f) => Err(f),
                Ok(direct) => match enrolled_all(
                    s.groups,
                    dir.names,
                    in_order(with_ancestors(dir.ancestors, direct, in_order(direct))),
                    username,
                ) {
                    Err(f) => Err(f),
                    Ok(groups) => match subjects_read(
                        SubjectsModel { subjects: Map::empty(), blockers: noted },
                        user,
                        username,
                        dir.modes,
                        in_order(dir.modes.dom()),
                    ) {
                        Err(f) => Err(f),
                        Ok(x) => match id_in(user.member("pk"@)) {
                            Err(f) => Err(f),
                            Ok(pk) => match user.member("attributes"@) {
                                Some(JsonModel::Object(m)) => Ok(
                                    PeopleModel {
                                        groups,
                                        users: s.users.push(
                                            user_of(
                                                user,
                                                username,
                                                pk,
                                                JsonModel::Object(m),
                                                x.subjects,
                                                password,
                                                row_of(input.totp, username),
                                                external,
                                            ),
                                        ),
                                        blockers: x.blockers,
                                    },
                                ),
                                _ => Err(Failure::Bad("Invalid user attributes"@)),
                            },
                        },
                    },
                },
            }
        },
    }
}

pub open spec fn users_read(
    s: PeopleModel,
    rows: Seq<JsonModel>,
    input: ImportModel,
    dir: DirectoryModel,
) -> Result<PeopleModel, Failure>
    decreases rows.len(),
{
    if rows.len() == 0 {
        Ok(s)
    } else {
        match users_read(s, rows.drop_last(), input, dir) {
            Err(f) => Err(f),
            Ok(x) => user_added(x, rows.last(), input, dir),
        }
    }
}

proof fn lemma_users_fail(
    s: PeopleModel,
    rows: Seq<JsonModel>,
    input: ImportModel,
    dir: DirectoryModel,
    n: int,
)
    requires
        0 <= n <= rows.len(),
        users_read(s, rows.take(n), input, dir) is Err,
    ensures
        users_read(s, rows, input, dir) == users_read(s, rows.take(n), input, dir),
    decreases rows.len() - n,
{
    if n < rows.len() {
        assert(rows.take(n + 1).drop_last() =~= rows.take(n));
        lemma_users_fail(s, rows, input, dir, n + 1);
    } else {
        assert(rows.take(n) =~= rows);
    }
}

fn add_user(s: &mut People, user: &Json, input: &Import, dir: &Directory) -> (e: Result<(), Error>)
    ensures
        match user_added(old(s)@, user@, input@, dir@) {
            Ok(x) => e is Ok && final(s)@ == x,
            Err(f) => fails(e, f),
        },
{
    let username = match field(user, "username") {
        Err(e) => return Err(e),
        Ok(x) => x,
    };
    let name = username.as_str();
    let password = match input.passwords.get(name) {
        Some(p) => Some(p.dup()),
        None => None,
    };
    let totp = match input.totp.get(name) {
        Some(p) => Some(p.dup()),
        None => None,
    };
    let external = member_is(user, "type", "external") && is_linked(&input.source_links, name);
    let mut blockers = s.blockers.copy();
    note_user(&mut blockers, user, name, password.is_some(), external);
    let direct = match ids(user.get("groups")) {
        Err(e) => return Err(e),
        Ok(x) => x,
    };
    let memberships = add_ancestors(&dir.ancestors, &direct);
    if let Err(e) = enroll_all(&mut s.groups, &dir.names, &memberships, name) {
        return Err(e);
    }
    let x = match read_subjects(blockers, user, name, &dir.modes) {
        Err(e) => return Err(e),
        Ok(x) => x,
    };
    let pk = match identifier(user.get("pk")) {
        Err(e) => return Err(e),
        Ok(x) => x,
    };
    let attributes = match user.get("attributes") {
        Some(a) => match a {
            Json::Object(_) => a.dup(),
            _ => return Err(Error::bad("Invalid user attributes")),
        },
        None => return Err(Error::bad("Invalid user attributes")),
    };
    let spec = UserSpec {
        password_disabled: external && password.is_none(),
        totp_ref: match &totp {
            Some(t) => Some(t.reference.clone()),
            None => None,
        },
        totp_version: match &totp {
            Some(t) => Some(t.version.clone()),
            None => None,
        },
        id: concat("authentik-", pk.as_str()),
        username: username.clone(),
        display_name: match get_filled(user, "name") {
            Some(n) => n,
            None => username.clone(),
        },
        email: get_filled(user, "email"),
        email_verified: false,
        enabled: flag_is(user, "is_active", true),
        admin: false,
        attributes,
        subjects: x.subjects,
        password_ref: match &password {
            Some(p) => if p.hashed {
                None
            } else {
                Some(p.reference.clone())
            },
            None => None,
        },
        password_hash_ref: match &password {
            Some(p) => if p.hashed {
                Some(p.reference.clone())
            } else {
                None
            },
            None => None,
        },
        password_version: match &password {
            Some(p) => Some(p.version.clone()),
            None => None,
        },
    };
    let ghost was = views(s.users@);
    let ghost sm = spec@;
    s.users.push(spec);
    assert(views(s.users@) =~= was.push(sm));
    s.blockers = x.blockers;
    Ok(())
}

#[verifier::loop_isolation(false)]
fn read_users(start: People, rows: &Vec<Json>, input: &Import, dir: &Directory) -> (r: Result<
    People,
    Error,
>)
    ensures
        agrees_with(r, users_read(start@, items_of(rows@), input@, dir@)),
{
    let ghost all = items_of(rows@);
    let ghost s0 = start@;
    let mut out = start;
    let mut i: usize = 0;
    assert(all.take(0) =~= Seq::<JsonModel>::empty());
    while i < rows.len()
        invariant
            i <= rows.len(),
            users_read(s0, all.take(i as int), input@, dir@) == Ok::<PeopleModel, Failure>(out@),
        decreases rows.len() - i,
    {
        proof {
            assert(all.take(i + 1).drop_last() =~= all.take(i as int));
            assert(all.take(i + 1).last() == rows[i as int]@);
        }
        if let Err(e) = add_user(&mut out, &rows[i], input, dir) {
            proof {
                lemma_users_fail(s0, all, input@, dir@, i + 1);
            }
            return Err(e);
        }
        i = i + 1;
    }
    assert(all.take(i as int) =~= all);
    Ok(out)
}

/// Two users have the same subject at the client.
pub open spec fn shared_subject(users: Seq<UserSpecModel>, cid: Seq<char>) -> bool {
    exists|i: int, j: int|
        0 <= i < j < users.len() && (#[trigger] users[i]).subjects.dom().contains(cid) && (
        #[trigger] users[j]).subjects.dom().contains(cid) && users[i].subjects[cid]
            == users[j].subjects[cid]
}

/// The blockers for the clients that would take two users for one.
pub open spec fn merge_blockers(
    s: Set<Seq<char>>,
    users: Seq<UserSpecModel>,
    clients: Seq<ClientSpecModel>,
) -> Set<Seq<char>>
    decreases clients.len(),
{
    if clients.len() == 0 {
        s
    } else {
        noted(
            merge_blockers(s, users, clients.drop_last()),
            shared_subject(users, clients.last().client_id),
            clients.last().client_id + ": duplicate subjects would merge identities"@,
        )
    }
}

#[verifier::loop_isolation(false)]
fn has_shared_subject(users: &Vec<UserSpec>, cid: &str) -> (r: bool)
    ensures
        r == shared_subject(views(users@), cid@),
{
    let ghost all = views(users@);
    let mut seen = Names::new();
    let mut i: usize = 0;
    while i < users.len()
        invariant
            i <= users.len(),
            forall|k: int|
                0 <= k < i && (#[trigger] all[k]).subjects.dom().contains(cid@) ==> seen@.contains(
                    all[k].subjects[cid@],
                ),
            forall|s: Seq<char>| #[trigger]
                seen@.contains(s) ==> exists|k: int|
                    0 <= k < i && (#[trigger] all[k]).subjects.dom().contains(cid@)
                        && all[k].subjects[cid@] == s,
            forall|a: int, b: int|
                0 <= a < b < i && (#[trigger] all[a]).subjects.dom().contains(cid@) && (
                #[trigger] all[b]).subjects.dom().contains(cid@) ==> all[a].subjects[cid@]
                    != all[b].subjects[cid@],
        decreases users.len() - i,
    {
        assert(all[i as int] == users[i as int]@);
        if let Some(s) = users[i].subjects.get(cid) {
            if !seen.insert(s.as_str()) {
                proof {
                    let k = choose|k: int|
                        0 <= k < i && (#[trigger] all[k]).subjects.dom().contains(cid@)
                            && all[k].subjects[cid@] == s@;
                    assert(all[k].subjects[cid@] == all[i as int].subjects[cid@]);
                }
                return true;
            }
        }
        i = i + 1;
    }
    false
}

#[verifier::loop_isolation(false)]
fn note_merges(s: Names, users: &Vec<UserSpec>, clients: &Vec<ClientSpec>) -> (r: Names)
    ensures
        r@ == merge_blockers(s@, views(users@), views(clients@)),
{
    let ghost all = views(clients@);
    let ghost s0 = s@;
    let mut out = s;
    let mut i: usize = 0;
    assert(all.take(0) =~= Seq::<ClientSpecModel>::empty());
    while i < clients.len()
        invariant
            i <= clients.len(),
            out@ == merge_blockers(s0, views(users@), all.take(i as int)),
        decreases clients.len() - i,
    {
        proof {
            assert(all.take(i + 1).drop_last() =~= all.take(i as int));
            assert(all.take(i + 1).last() == clients[i as int]@);
        }
        let cid = clients[i].client_id.as_str();
        note(
            &mut out,
            has_shared_subject(users, cid),
            cid,
            ": duplicate subjects would merge identities",
        );
        i = i + 1;
    }
    assert(all.take(i as int) =~= all);
    out
}

/// The rows of an import.
pub ghost struct ImportRows {
    pub users: Seq<JsonModel>,
    pub groups: Seq<JsonModel>,
    pub providers: Seq<JsonModel>,
    pub applications: Seq<JsonModel>,
    pub bindings: Seq<JsonModel>,
    pub sources: Seq<JsonModel>,
}

pub open spec fn import_rows(i: ImportModel) -> Result<ImportRows, Failure> {
    match rows_of(i.users) {
        Err(f) => Err(f),
        Ok(users) => match rows_of(i.groups) {
            Err(f) => Err(f),
            Ok(groups) => match rows_of(i.providers) {
                Err(f) => Err(f),
                Ok(providers) => match rows_of(i.applications) {
                    Err(f) => Err(f),
                    Ok(applications) => match rows_of(i.policy_bindings) {
                        Err(f) => Err(f),
                        Ok(bindings) => match rows_of(i.sources) {
                            Err(f) => Err(f),
                            Ok(sources) => Ok(
                                ImportRows {
                                    users,
                                    groups,
                                    providers,
                                    applications,
                                    bindings,
                                    sources,
                                },
                            ),
                        },
                    },
                },
            },
        },
    }
}

/// The blockers once the policy bindings and the applications were looked at.
pub open spec fn inventory(s: ConvertedModel, rows: ImportRows) -> Result<Set<Seq<char>>, Failure> {
    match keys_in(rows.bindings, "pk"@) {
        Err(f) => Err(f),
        Ok(bindings) => match keys_in(rows.providers, "pk"@) {
            Err(f) => Err(f),
            Ok(providers) => applications_read(
                noted(
                    s.blockers,
                    bindings != s.bindings,
                    "Every exported policy binding must be inventoried and translated; unresolved or extra binding IDs remain"@,
                ),
                rows.applications,
                providers,
            ),
        },
    }
}

/// What an import becomes, up to the rules on the manifest as a whole.
pub open spec fn conversion(input: ImportModel, reviews: ReviewsModel) -> Result<
    ManifestModel,
    Failure,
> {
    if input.api_version != "riauth.authentik-import/v1"@ {
        Err(Failure::Bad("Unsupported Authentik import format"@))
    } else if !reviews.rules.server_urls.contains(input.issuer) {
        Err(Failure::Bad("Invalid target issuer"@))
    } else {
        match import_rows(input) {
            Err(f) => Err(f),
            Ok(rows) => match sources_read(
                rows.sources,
                input.source_resolutions,
                reviews.sources,
            ) {
                Err(f) => Err(f),
                Ok(sources) => match groups_read(rows.groups) {
                    Err(f) => Err(f),
                    Ok(h) => match all_ancestors(h.parents, in_order(h.names.dom())) {
                        Err(f) => Err(f),
                        Ok(ancestors) => match providers_read(
                            rows.providers,
                            sources.blockers,
                            rows.applications,
                            input.clients,
                            input.issuer,
                            reviews,
                        ) {
                            Err(f) => Err(f),
                            Ok(s) => match inventory(s, rows) {
                                Err(f) => Err(f),
                                Ok(blockers) => match users_read(
                                    PeopleModel { groups: h.groups, users: Seq::empty(), blockers },
                                    rows.users,
                                    input,
                                    DirectoryModel {
                                        names: h.names,
                                        ancestors,
                                        modes: s.subject_modes,
                                    },
                                ) {
                                    Err(f) => Err(f),
                                    Ok(p) => Ok(
                                        ManifestModel {
                                            source_links: input.source_links,
                                            sources: sources.sources,
                                            groups: p.groups,
                                            clients: s.clients,
                                            users: p.users,
                                            blockers: merge_blockers(
                                                p.blockers,
                                                p.users,
                                                s.clients,
                                            ),
                                        },
                                    ),
                                },
                            },
                        },
                    },
                },
            },
        }
    }
}

fn take_inventory(s: Names, resolved: &Names, input_bindings: &Vec<Json>, providers: &Vec<Json>, applications: &Vec<Json>) -> (r: Result<
    Names,
    Error,
>)
    ensures
        agrees_with(
            r,
            match keys_in(items_of(input_bindings@), "pk"@) {
                Err(f) => Err(f),
                Ok(b) => match keys_in(items_of(providers@), "pk"@) {
                    Err(f) => Err(f),
                    Ok(p) => applications_read(
                        noted(
                            s@,
                            b != resolved@,
                            "Every exported policy binding must be inventoried and translated; unresolved or extra binding IDs remain"@,
                        ),
                        items_of(applications@),
                        p,
                    ),
                },
            },
        ),
{
    let bindings = match key_set(input_bindings, "pk") {
        Err(e) => return Err(e),
        Ok(x) => x,
    };
    let mut blockers = s;
    if !bindings.same_names(resolved) {
        blockers.insert(
            "Every exported policy binding must be inventoried and translated; unresolved or extra binding IDs remain",
        );
    }
    let ids = match key_set(providers, "pk") {
        Err(e) => return Err(e),
        Ok(x) => x,
    };
    read_applications(blockers, applications, &ids)
}

/// Converts an export to what it would create. The rules on the manifest as a whole are applied by
/// [`report`].
pub fn convert(input: &Import, reviews: &Reviews) -> (r: Result<Manifest, Error>)
    ensures
        agrees_with(r, conversion(input@, reviews@)),
{
    if !same(input.api_version.as_str(), "riauth.authentik-import/v1") {
        return Err(Error::bad("Unsupported Authentik import format"));
    }
    if !reviews.rules.server_urls.contains(input.issuer.as_str()) {
        return Err(Error::bad("Invalid target issuer"));
    }
    let users = match rows(&input.users) {
        Err(e) => return Err(e),
        Ok(x) => x,
    };
    let groups = match rows(&input.groups) {
        Err(e) => return Err(e),
        Ok(x) => x,
    };
    let providers = match rows(&input.providers) {
        Err(e) => return Err(e),
        Ok(x) => x,
    };
    let applications = match rows(&input.applications) {
        Err(e) => return Err(e),
        Ok(x) => x,
    };
    let bindings = match rows(&input.policy_bindings) {
        Err(e) => return Err(e),
        Ok(x) => x,
    };
    let source_rows = match rows(&input.sources) {
        Err(e) => return Err(e),
        Ok(x) => x,
    };
    let sources = match read_sources(source_rows, &input.source_resolutions, &reviews.sources) {
        Err(e) => return Err(e),
        Ok(x) => x,
    };
    let h = match read_groups(groups) {
        Err(e) => return Err(e),
        Ok(x) => x,
    };
    let ancestors = match find_ancestors(&h) {
        Err(e) => return Err(e),
        Ok(x) => x,
    };
    let s = match read_providers(
        providers,
        sources.blockers,
        applications,
        &input.clients,
        input.issuer.as_str(),
        reviews,
    ) {
        Err(e) => return Err(e),
        Ok(x) => x,
    };
    let blockers = match take_inventory(s.blockers, &s.bindings, bindings, providers, applications) {
        Err(e) => return Err(e),
        Ok(x) => x,
    };
    let none: Vec<UserSpec> = Vec::new();
    assert(views(none@) =~= Seq::<UserSpecModel>::empty());
    let dir = Directory { names: h.names, ancestors, modes: s.subject_modes };
    let p = match read_users(
        People { groups: h.groups, users: none, blockers },
        users,
        input,
        &dir,
    ) {
        Err(e) => return Err(e),
        Ok(x) => x,
    };
    let merged = note_merges(p.blockers, &p.users, &s.clients);
    Ok(
        Manifest {
            source_links: dup_list(&input.source_links),
            sources: sources.sources,
            groups: p.groups,
            clients: s.clients,
            users: p.users,
            blockers: merged,
        },
    )
}

/// The report on a conversion. There is a manifest where nothing blocks the draft.
pub struct Report {
    pub ready_for_plan: bool,
    pub issuer: String,
    pub blockers: Names,
    pub manifest: Option<Manifest>,
    pub draft: Manifest,
    pub source_fingerprint: String,
}

/// What a [`Report`] holds.
pub struct ReportModel {
    pub ready_for_plan: bool,
    pub issuer: Seq<char>,
    pub blockers: Set<Seq<char>>,
    pub manifest: Option<ManifestModel>,
    pub draft: ManifestModel,
    pub source_fingerprint: Seq<char>,
}

impl View for Report {
    type V = ReportModel;

    open spec fn view(&self) -> ReportModel {
        ReportModel {
            ready_for_plan: self.ready_for_plan,
            issuer: self.issuer@,
            blockers: self.blockers@,
            manifest: crate::table::opt_view(self.manifest),
            draft: self.draft@,
            source_fingerprint: self.source_fingerprint@,
        }
    }
}

impl Row for Report {
    fn dup(&self) -> (r: Self) {
        Report {
            ready_for_plan: self.ready_for_plan,
            issuer: self.issuer.clone(),
            blockers: self.blockers.copy(),
            manifest: crate::table::dup_opt(&self.manifest),
            draft: self.draft.dup(),
            source_fingerprint: self.source_fingerprint.clone(),
        }
    }
}

/// Reports on a conversion. `complaint` is why the rules on the manifest as a whole refuse it, if
/// they do; `source` is the serialized import.
pub fn report(input: &Import, manifest: Manifest, complaint: Option<String>, source: &str) -> (r: Report)
    ensures
        r@.blockers == match complaint {
            Some(m) => manifest@.blockers.insert(m@),
            None => manifest@.blockers,
        },
        r@.ready_for_plan == (r@.blockers == Set::<Seq<char>>::empty()),
        r@.issuer == input@.issuer,
        r@.draft == manifest@,
        r@.manifest == if r@.ready_for_plan {
            Some(manifest@)
        } else {
            None
        },
        r@.source_fingerprint == digest_of(source@),
{
    let mut blockers = manifest.blockers.copy();
    if let Some(m) = &complaint {
        blockers.insert(m.as_str());
    }
    let ready_for_plan = blockers.is_empty();
    Report {
        ready_for_plan,
        issuer: input.issuer.clone(),
        blockers,
        manifest: if ready_for_plan {
            Some(manifest.dup())
        } else {
            None
        },
        draft: manifest,
        source_fingerprint: digest(source),
    }
}

proof fn lemma_users_plain(s: PeopleModel, rows: Seq<JsonModel>, input: ImportModel, dir: DirectoryModel)
    requires
        users_read(s, rows, input, dir) is Ok,
        forall|i: int|
            0 <= i < s.users.len() ==> !(#[trigger] s.users[i]).admin && !s.users[i].email_verified,
    ensures
        forall|i: int|
            0 <= i < (users_read(s, rows, input, dir)->Ok_0).users.len() ==> !(#[trigger] (
            users_read(s, rows, input, dir)->Ok_0).users[i]).admin && !(users_read(
                s,
                rows,
                input,
                dir,
            )->Ok_0).users[i].email_verified,
        (users_read(s, rows, input, dir)->Ok_0).users.len() == s.users.len() + rows.len(),
    decreases rows.len(),
{
    if rows.len() > 0 {
        lemma_users_plain(s, rows.drop_last(), input, dir);
    }
}

/// An import makes no administrators and trusts no address: every exported user is converted once,
/// without privileges and with an unverified address.
pub proof fn imports_make_no_administrators(input: ImportModel, reviews: ReviewsModel)
    requires
        conversion(input, reviews) is Ok,
    ensures
        rows_of(input.users) is Ok,
        (conversion(input, reviews)->Ok_0).users.len() == (rows_of(input.users)->Ok_0).len(),
        forall|i: int|
            0 <= i < (conversion(input, reviews)->Ok_0).users.len() ==> !(#[trigger] (conversion(
                input,
                reviews,
            )->Ok_0).users[i]).admin && !(conversion(input, reviews)->Ok_0).users[i].email_verified,
{
    let rows = import_rows(input)->Ok_0;
    let sources = sources_read(rows.sources, input.source_resolutions, reviews.sources)->Ok_0;
    let h = groups_read(rows.groups)->Ok_0;
    let ancestors = all_ancestors(h.parents, in_order(h.names.dom()))->Ok_0;
    let s = providers_read(
        rows.providers,
        sources.blockers,
        rows.applications,
        input.clients,
        input.issuer,
        reviews,
    )->Ok_0;
    let blockers = inventory(s, rows)->Ok_0;
    lemma_users_plain(
        PeopleModel { groups: h.groups, users: Seq::empty(), blockers },
        rows.users,
        input,
        DirectoryModel { names: h.names, ancestors, modes: s.subject_modes },
    );
}

/// An imported user keeps their name, their names for the clients and whether they are active; they are
/// no administrator, and a credential is named, never copied.
pub proof fn imported_users_keep_who_they_are(
    user: JsonModel,
    username: Seq<char>,
    pk: Seq<char>,
    attributes: JsonModel,
    subjects: Map<Seq<char>, Seq<char>>,
    password: Option<PasswordReferenceModel>,
    external: bool,
)
    ensures
        ({
            let u = user_of(user, username, pk, attributes, subjects, password, None, external);
            &&& u.username == username && u.id == "authentik-"@ + pk
            &&& u.attributes == attributes && u.subjects == subjects
            &&& u.enabled <==> user.member("is_active"@) == Some(JsonModel::Bool(true))
            &&& !u.admin && !u.email_verified
            &&& text_of(user, "email"@) matches Some(e) ==> (e.len() > 0 ==> u.email == Some(e))
            &&& text_of(user, "name"@) matches Some(n) ==> (n.len() > 0 ==> u.display_name == n)
            &&& text_of(user, "name"@) is None ==> u.display_name == username
            &&& password matches Some(p) ==> (p.hashed ==> u.password_hash_ref == Some(p.reference)
                && u.password_ref is None) && (!p.hashed ==> u.password_ref == Some(p.reference)
                && u.password_hash_ref is None)
            &&& password is None ==> u.password_ref is None && u.password_hash_ref is None
            &&& u.password_disabled <==> external && password is None
            &&& u.totp_ref is None
        }),
{
}

/// A user is in a group under the name that they have, and in no other that they were not in before.
pub proof fn imported_users_join_their_groups(
    groups: Seq<GroupSpecModel>,
    name: Seq<char>,
    user: Seq<char>,
    i: int,
)
    requires
        0 <= i < groups.len(),
        forall|a: int, b: int|
            0 <= a < b < groups.len() ==> (#[trigger] groups[a]).name != (#[trigger] groups[b]).name,
    ensures
        enrolled(groups, name, user).len() == groups.len(),
        enrolled(groups, name, user)[i].name == groups[i].name,
        groups[i].name == name ==> enrolled(groups, name, user)[i].members == groups[i].members.insert(
            user,
        ),
        groups[i].name != name ==> enrolled(groups, name, user)[i] == groups[i],
    decreases groups.len(),
{
    if groups[0].name != name && i > 0 {
        let r = groups.drop_first();
        assert forall|a: int, b: int| 0 <= a < b < r.len() implies (#[trigger] r[a]).name != (
        #[trigger] r[b]).name by {
            assert(r[a] == groups[a + 1] && r[b] == groups[b + 1]);
        }
        imported_users_join_their_groups(r, name, user, i - 1);
        assert(r[i - 1] == groups[i]);
    } else if groups[0].name != name {
        lemma_enrolled_length(groups.drop_first(), name, user);
    }
}

proof fn lemma_enrolled_length(groups: Seq<GroupSpecModel>, name: Seq<char>, user: Seq<char>)
    ensures
        enrolled(groups, name, user).len() == groups.len(),
    decreases groups.len(),
{
    if groups.len() > 0 && groups[0].name != name {
        lemma_enrolled_length(groups.drop_first(), name, user);
    }
}

/// A user is known to a client by what the client knew them by.
pub proof fn imported_subjects_stay_the_same(user: JsonModel, username: Seq<char>, s: Seq<char>)
    ensures
        subject_of(user, username, "user_username"@) == Ok::<Option<Seq<char>>, Failure>(
            Some(username),
        ),
        text_of(user, "uid"@) == Some(s) ==> subject_of(user, username, "hashed_user_id"@) == Ok::<
            Option<Seq<char>>,
            Failure,
        >(Some(s)),
        text_of(user, "uuid"@) == Some(s) ==> subject_of(user, username, "user_uuid"@) == Ok::<
            Option<Seq<char>>,
            Failure,
        >(Some(s)),
        text_of(user, "email"@) == Some(s) ==> subject_of(user, username, "user_email"@) == Ok::<
            Option<Seq<char>>,
            Failure,
        >(Some(s)),
{
    reveal_strlit("hashed_user_id");
    reveal_strlit("user_id");
    reveal_strlit("user_uuid");
    reveal_strlit("user_username");
    reveal_strlit("user_email");
    reveal_strlit("user_upn");
    assert("hashed_user_id"@.len() == 14 && "user_id"@.len() == 7 && "user_uuid"@.len() == 9
        && "user_username"@.len() == 13 && "user_email"@.len() == 10 && "user_upn"@.len() == 8);
}

/// A user without a password stops the import unless they come from a linked source; so do services and
/// external accounts without a link, and administrative roles. Nothing that was noted is lost, and a
/// user from a linked source who has no password gets none.
pub proof fn unclear_users_stop_the_import(
    s: PeopleModel,
    user: JsonModel,
    input: ImportModel,
    dir: DirectoryModel,
    username: Seq<char>,
)
    requires
        user_added(s, user, input, dir) is Ok,
        text_of(user, "username"@) == Some(username),
    ensures
        ({
            let u = user_added(s, user, input, dir)->Ok_0;
            let from_source = text_of(user, "type"@) == Some("external"@) && exists|i: int|
                0 <= i < input.source_links.len() && (#[trigger] input.source_links[i]).username == username;
            let has_password = row_of(input.passwords, username) is Some;
            &&& s.blockers.subset_of(u.blockers)
            &&& !has_password && !from_source ==> u.blockers.contains(
                username
                    + ": supply a password/password-hash reference or complete password reset before migration"@,
            )
            &&& text_of(user, "type"@) is Some && text_of(user, "type"@) != Some("internal"@) && !from_source
                ==> u.blockers.contains(
                username
                    + ": external/service identity requires explicit source or service-account migration"@,
            )
            &&& has_items(user, "roles"@) ==> u.blockers.contains(
                username
                    + ": Authentik administrative roles require explicit agent permission migration"@,
            )
            &&& u.users.len() == s.users.len() + 1
            &&& u.users.last().password_disabled <==> from_source && !has_password
            &&& u.users.last().username == username
            &&& !u.users.last().admin
        }),
{
    let password = row_of(input.passwords, username);
    let external = text_of(user, "type"@) == Some("external"@) && linked(input.source_links, username);
    let noted_all = user_blockers(s.blockers, user, username, password is Some, external);
    lemma_blockers_grow(
        SubjectsModel { subjects: Map::empty(), blockers: noted_all },
        user,
        username,
        dir.modes,
        in_order(dir.modes.dom()),
    );
}

proof fn lemma_blockers_grow(
    s: SubjectsModel,
    user: JsonModel,
    username: Seq<char>,
    modes: Map<Seq<char>, Seq<char>>,
    cids: Seq<Seq<char>>,
)
    ensures
        subjects_read(s, user, username, modes, cids) matches Ok(x) ==> s.blockers.subset_of(x.blockers),
    decreases cids.len(),
{
    if cids.len() > 0 {
        lemma_blockers_grow(s, user, username, modes, cids.drop_last());
    }
}

} // verus!
