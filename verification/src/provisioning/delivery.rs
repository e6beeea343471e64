//! The delivery of one resource: look the account up, then create or update it, and check.
use crate::error::{Error, Failure, agrees_with, fails};
use crate::json::{Json, JsonModel, Member, a_member_that_is_set_is_found, items_of, json_model, lemma_items, lemma_items_of, lemma_members, lemma_members_of, member, member_models, members_of, text, text_of, with_member};
use crate::outside::{append_segment, digest, digest_of, json_quoted, quote_json, url_with_segment};
use crate::provisioning::{Job, JobModel, Link, LinkModel, Resource, ResourceModel, link_key, link_key_of, managed, managed_equal, managed_member_equal, member_managed};
use crate::provisioning::token::endpoint_failure;
use crate::store::{Tx, TxModel};
use crate::table::{Row, Table, opt_view};
use crate::text::{byte_count, byte_len, concat, concat3, opt_is, opt_text, same, texts, trim_end_char, trim_end_of};
use vstd::prelude::*;
use vstd::string::*;

verus! {

/// What the delivery of a resource waits for.
#[derive(Clone, Copy, PartialEq, Eq, Structural, Debug)]
pub enum Phase {
    /// The accounts with the resource's external id.
    Lookup,
    /// The account as it is.
    Fetch,
    /// The answer to the update.
    Update,
    /// The account as it is after the update.
    Reread,
    /// The answer to the creation.
    Create,
}

/// The delivery of a resource.
pub struct Step {
    pub plan_id: String,
    pub target: String,
    pub url: String,
    pub kind: String,
    pub local_id: String,
    /// The resource is a group without members.
    pub no_members: bool,
    pub body: Json,
    pub external_id: String,
    /// The remote account that the resource was provisioned as before.
    pub known: Option<String>,
    pub phase: Phase,
    /// The remote account that is being updated.
    pub remote_id: String,
}

/// What a [`Step`] holds.
pub struct StepModel {
    pub plan_id: Seq<char>,
    pub target: Seq<char>,
    pub url: Seq<char>,
    pub kind: Seq<char>,
    pub local_id: Seq<char>,
    pub no_members: bool,
    pub body: JsonModel,
    pub external_id: Seq<char>,
    pub known: Option<Seq<char>>,
    pub phase: Phase,
    pub remote_id: Seq<char>,
}

impl View for Step {
    type V = StepModel;

    open spec fn view(&self) -> StepModel {
        StepModel {
            plan_id: self.plan_id@,
            target: self.target@,
            url: self.url@,
            kind: self.kind@,
            local_id: self.local_id@,
            no_members: self.no_members,
            body: self.body@,
            external_id: self.external_id@,
            known: crate::text::opt_text(self.known),
            phase: self.phase,
            remote_id: self.remote_id@,
        }
    }
}

impl Row for Step {
    fn dup(&self) -> (r: Self) {
        Step {
            plan_id: self.plan_id.clone(),
            target: self.target.clone(),
            url: self.url.clone(),
            kind: self.kind.clone(),
            local_id: self.local_id.clone(),
            no_members: self.no_members,
            body: self.body.dup(),
            external_id: self.external_id.clone(),
            known: crate::text::copy_opt(&self.known),
            phase: self.phase,
            remote_id: self.remote_id.clone(),
        }
    }
}

/// A request to the target.
pub enum ScimRequest {
    Find { url: String, filter: String },
    Get { url: String },
    Patch { url: String, etag: String, key: String, body: Json },
    Post { url: String, key: String, body: Json },
}

/// What a [`ScimRequest`] holds.
pub enum ScimRequestModel {
    Find { url: Seq<char>, filter: Seq<char> },
    Get { url: Seq<char> },
    Patch { url: Seq<char>, etag: Seq<char>, key: Seq<char>, body: JsonModel },
    Post { url: Seq<char>, key: Seq<char>, body: JsonModel },
}

impl View for ScimRequest {
    type V = ScimRequestModel;

    open spec fn view(&self) -> ScimRequestModel {
        match *self {
            ScimRequest::Find { url, filter } => ScimRequestModel::Find { url: url@, filter: filter@ },
            ScimRequest::Get { url } => ScimRequestModel::Get { url: url@ },
            ScimRequest::Patch { url, etag, key, body } => ScimRequestModel::Patch {
                url: url@,
                etag: etag@,
                key: key@,
                body: body@,
            },
            ScimRequest::Post { url, key, body } => ScimRequestModel::Post {
                url: url@,
                key: key@,
                body: body@,
            },
        }
    }
}

/// A reply of the target: its body where that is JSON of at most two megabytes.
pub struct ScimReply {
    pub status: u16,
    pub body: Option<Json>,
    pub etag: Option<String>,
}

/// What a [`ScimReply`] holds.
pub struct ScimReplyModel {
    pub status: u16,
    pub body: Option<JsonModel>,
    pub etag: Option<Seq<char>>,
}

impl View for ScimReply {
    type V = ScimReplyModel;

    open spec fn view(&self) -> ScimReplyModel {
        ScimReplyModel {
            status: self.status,
            body: crate::table::opt_view(self.body),
            etag: crate::text::opt_text(self.etag),
        }
    }
}

impl Row for ScimReply {
    fn dup(&self) -> (r: Self) {
        ScimReply {
            status: self.status,
            body: crate::table::dup_opt(&self.body),
            etag: crate::text::copy_opt(&self.etag),
        }
    }
}

/// What the delivery does next.
pub enum Next {
    Send(ScimRequest),
    /// The resource is as it should be; its link, unless there is nothing to link.
    Done(Option<Link>),
}

/// What a [`Next`] holds.
pub enum NextModel {
    Send(ScimRequestModel),
    Done(Option<LinkModel>),
}

impl View for Next {
    type V = NextModel;

    open spec fn view(&self) -> NextModel {
        match *self {
            Next::Send(q) => NextModel::Send(q@),
            Next::Done(l) => NextModel::Done(opt_view(l)),
        }
    }
}

pub open spec fn remote_failure() -> Failure {
    endpoint_failure("SCIM target rejected the request or returned an invalid response"@)
}

pub fn remote_error() -> (e: Error)
    ensures
        e@ == remote_failure(),
{
    Error::reply(
        502,
        "provisioning_remote_error",
        "SCIM target rejected the request or returned an invalid response",
    )
}

/// The members of a group as the target knows them.
pub open spec fn remote_members(
    links: Map<Seq<char>, LinkModel>,
    target: Seq<char>,
    ids: Seq<Seq<char>>,
) -> Option<Seq<JsonModel>>
    decreases ids.len(),
{
    if ids.len() == 0 {
        Some(Seq::empty())
    } else {
        let key = link_key_of(target, "Users"@, ids.last());
        match remote_members(links, target, ids.drop_last()) {
            None => None,
            Some(rest) => if links.dom().contains(key) {
                Some(
                    rest.push(
                        JsonModel::Object(
                            seq![("value"@, JsonModel::Text(links[key].remote_id))],
                        ),
                    ),
                )
            } else {
                None
            },
        }
    }
}

proof fn lemma_members_missing(
    links: Map<Seq<char>, LinkModel>,
    target: Seq<char>,
    ids: Seq<Seq<char>>,
    n: int,
)
    requires
        0 <= n <= ids.len(),
        remote_members(links, target, ids.take(n)) is None,
    ensures
        remote_members(links, target, ids) is None,
    decreases ids.len() - n,
{
    if n < ids.len() {
        assert(ids.take(n + 1).drop_last() =~= ids.take(n));
        lemma_members_missing(links, target, ids, n + 1);
    } else {
        assert(ids.take(n) =~= ids);
    }
}

fn find_members(links: &Table<Link>, target: &str, ids: &Vec<String>) -> (r: Option<Json>)
    ensures
        match remote_members(links@, target@, texts(ids@)) {
            Some(m) => r is Some && r->0@ == JsonModel::Array(m),
            None => r is None,
        },
{
    let ghost all = texts(ids@);
    let mut out: Vec<Json> = Vec::new();
    let mut i: usize = 0;
    assert(all.take(0) =~= Seq::<Seq<char>>::empty());
    assert(items_of(out@) =~= Seq::<JsonModel>::empty());
    while i < ids.len()
        invariant
            i <= ids.len(),
            all == texts(ids@),
            remote_members(links@, target@, all.take(i as int)) == Some(items_of(out@)),
        decreases ids.len() - i,
    {
        proof {
            assert(all.take(i + 1).drop_last() =~= all.take(i as int));
            assert(all.take(i + 1).last() == ids@[i as int]@);
        }
        let key = link_key(target, "Users", ids[i].as_str());
        match links.get(key.as_str()) {
            None => {
                proof {
                    lemma_members_missing(links@, target@, all, i + 1);
                }
                return None;
            },
            Some(l) => {
                let ghost was = items_of(out@);
                let v = crate::json::single("value", text(l.remote_id.as_str()));
                let ghost vm = v@;
                out.push(v);
                assert(items_of(out@) =~= was.push(vm));
            },
        }
        i = i + 1;
    }
    assert(all.take(i as int) =~= all);
    proof {
        lemma_items_of(out);
    }
    Some(Json::Array(out))
}

/// The body that is delivered: groups get the members that the target knows.
pub open spec fn delivered_body(t: TxModel, target: Seq<char>, r: ResourceModel) -> Result<
    JsonModel,
    Failure,
> {
    if r.kind == "Groups"@ {
        match remote_members(t.provisioning_links, target, r.member_ids) {
            None => Err(Failure::Conflict("Group user has not been provisioned"@)),
            Some(m) => Ok(
                match r.body {
                    JsonModel::Object(b) => JsonModel::Object(
                        with_member(b, "members"@, JsonModel::Array(m)),
                    ),
                    other => other,
                },
            ),
        }
    } else {
        Ok(r.body)
    }
}

/// The start of a delivery, or why it cannot start.
pub open spec fn begun(t: TxModel, j: JobModel, r: ResourceModel, url: Seq<char>) -> Result<
    StepModel,
    Failure,
> {
    match delivered_body(t, j.plan.target, r) {
        Err(f) => Err(f),
        Ok(body) => match text_of(body, "externalId"@) {
            None => Err(Failure::Internal("Missing external identity"@)),
            Some(external_id) => {
                let key = link_key_of(j.plan.target, r.kind, r.local_id);
                Ok(
                    StepModel {
                        plan_id: j.plan.id,
                        target: j.plan.target,
                        url,
                        kind: r.kind,
                        local_id: r.local_id,
                        no_members: r.kind == "Groups"@ && r.member_ids.len() == 0,
                        body,
                        external_id,
                        known: if t.provisioning_links.dom().contains(key) {
                            Some(t.provisioning_links[key].remote_id)
                        } else {
                            None
                        },
                        phase: Phase::Lookup,
                        remote_id: ""@,
                    },
                )
            },
        },
    }
}

/// Where the target's accounts of the resource's kind are.
pub open spec fn collection_url(s: StepModel) -> Seq<char> {
    trim_end_char(s.url, '/') + "/"@ + s.kind
}

/// The request that looks the resource up.
pub open spec fn find_request(s: StepModel) -> ScimRequestModel {
    ScimRequestModel::Find {
        url: collection_url(s),
        filter: "externalId eq "@ + json_quoted(s.external_id),
    }
}

/// The key by which the target recognises a repeated write.
pub open spec fn write_key(s: StepModel) -> Seq<char> {
    "ri-"@ + s.plan_id + "-"@ + digest_of(s.kind + ":"@ + s.local_id)
}

/// A usable account id.
pub open spec fn account_id(v: JsonModel) -> Option<Seq<char>> {
    match text_of(v, "id"@) {
        Some(id) => if id.len() > 0 && byte_count(id) <= 512 {
            Some(id)
        } else {
            None
        },
        None => None,
    }
}

/// The link of a delivered resource.
pub open spec fn delivered_link(s: StepModel, remote_id: Seq<char>) -> LinkModel {
    LinkModel {
        target: s.target,
        url: s.url,
        kind: s.kind,
        local_id: s.local_id,
        remote_id,
        external_id: s.external_id,
        body: s.body,
    }
}

/// The account with the resource's external id, if there is one, or why it cannot be told.
pub open spec fn found_account(s: StepModel, found: JsonModel) -> Result<Option<JsonModel>, Failure> {
    match found.member("Resources"@) {
        Some(JsonModel::Array(list)) => {
            let n = match found.member("totalResults"@) {
                Some(v) => v.number(),
                None => None,
            };
            if n is None || (n->0) as nat != list.len() || list.len() > 1 || (list.len() == 1 && text_of(
                list[0],
                "externalId"@,
            ) != Some(s.external_id)) {
                Err(
                    Failure::Conflict(
                        "Remote external identity is ambiguous; refusing to choose an account"@,
                    ),
                )
            } else if list.len() == 1 {
                Ok(Some(list[0]))
            } else {
                Ok(None)
            }
        },
        _ => Err(remote_failure()),
    }
}

/// What follows the lookup.
pub open spec fn after_lookup(s: StepModel, found: JsonModel) -> Result<(StepModel, NextModel), Failure> {
    match found_account(s, found) {
        Err(f) => Err(f),
        Ok(Some(account)) => match account_id(account) {
            None => Err(remote_failure()),
            Some(id) => if s.known is Some && s.known != Some(id) {
                Err(
                    Failure::Conflict(
                        "Remote account ID changed; review before replacing its binding"@,
                    ),
                )
            } else {
                match url_with_segment(collection_url(s), id) {
                    None => Err(remote_failure()),
                    Some(url) => Ok(
                        (
                            StepModel { phase: Phase::Fetch, remote_id: id, ..s },
                            NextModel::Send(ScimRequestModel::Get { url }),
                        ),
                    ),
                }
            },
        },
        Ok(None) => if s.body.member("active"@) == Some(JsonModel::Bool(false)) || s.no_members {
            Ok((s, NextModel::Done(None)))
        } else if s.known is Some {
            Err(
                Failure::Conflict("Linked remote account is missing; review before recreating it"@),
            )
        } else {
            Ok(
                (
                    StepModel { phase: Phase::Create, ..s },
                    NextModel::Send(
                        ScimRequestModel::Post {
                            url: collection_url(s),
                            key: write_key(s),
                            body: s.body,
                        },
                    ),
                ),
            )
        },
    }
}

/// Some member, other than the list of schemas, is not as expected.
pub open spec fn needs_update(body: JsonModel, current: JsonModel) -> bool {
    match body {
        JsonModel::Object(m) => exists|i: int|
            0 <= i < m.len() && (#[trigger] m[i]).0 != "schemas"@ && !member_managed(
                m[i].0,
                m[i].1,
                current.member(m[i].0),
            ),
        _ => false,
    }
}

/// The members that an update replaces.
pub open spec fn changed(current: JsonModel) -> spec_fn((Seq<char>, JsonModel)) -> bool {
    |m: (Seq<char>, JsonModel)|
        m.0 != "schemas"@ && m.0 != "externalId"@ && !member_managed(m.0, m.1, current.member(m.0))
}

/// The update that replaces these members.
pub open spec fn patch_with(changes: Seq<(Seq<char>, JsonModel)>) -> JsonModel {
    JsonModel::Object(
        seq![
            (
                "schemas"@,
                JsonModel::Array(
                    seq![JsonModel::Text("urn:ietf:params:scim:api:messages:2.0:PatchOp"@)],
                ),
            ),
            (
                "Operations"@,
                JsonModel::Array(
                    seq![
                        JsonModel::Object(
                            seq![
                                ("op"@, JsonModel::Text("replace"@)),
                                ("value"@, JsonModel::Object(changes)),
                            ],
                        ),
                    ],
                ),
            ),
        ],
    )
}

/// The update that makes the account as expected.
pub open spec fn patch_of(body: JsonModel, current: JsonModel) -> JsonModel {
    patch_with((body->Object_0).filter(changed(current)))
}

/// The version that an update is made against.
pub open spec fn version_of(r: ScimReplyModel, current: JsonModel) -> Option<Seq<char>> {
    if r.etag is Some {
        r.etag
    } else {
        match current.member("meta"@) {
            Some(meta) => text_of(meta, "version"@),
            None => None,
        }
    }
}

/// What follows the fetch.
pub open spec fn after_fetch(s: StepModel, r: ScimReplyModel, current: JsonModel) -> Result<
    (StepModel, NextModel),
    Failure,
> {
    if text_of(current, "externalId"@) != Some(s.external_id) || text_of(current, "id"@) != Some(
        s.remote_id,
    ) {
        Err(Failure::Conflict("Remote account binding changed"@))
    } else if !needs_update(s.body, current) {
        Ok((s, NextModel::Done(Some(delivered_link(s, s.remote_id)))))
    } else {
        match version_of(r, current) {
            None => Err(
                Failure::Bad("SCIM target must supply an ETag for conditional updates"@),
            ),
            Some(etag) => match url_with_segment(collection_url(s), s.remote_id) {
                None => Err(remote_failure()),
                Some(url) => Ok(
                    (
                        StepModel { phase: Phase::Update, ..s },
                        NextModel::Send(
                            ScimRequestModel::Patch {
                                url,
                                etag,
                                key: write_key(s),
                                body: patch_of(s.body, current),
                            },
                        ),
                    ),
                ),
            },
        }
    }
}

/// The account is as expected after its update.
pub open spec fn after_update(s: StepModel, updated: JsonModel) -> Result<(StepModel, NextModel), Failure> {
    if text_of(updated, "id"@) != Some(s.remote_id) || text_of(updated, "externalId"@) != Some(
        s.external_id,
    ) || !managed(s.body, updated) {
        Err(remote_failure())
    } else {
        Ok((s, NextModel::Done(Some(delivered_link(s, s.remote_id)))))
    }
}

/// The account was created as expected.
pub open spec fn after_create(s: StepModel, created: JsonModel) -> Result<(StepModel, NextModel), Failure> {
    if text_of(created, "externalId"@) != Some(s.external_id) || !managed(s.body, created) {
        Err(remote_failure())
    } else {
        match account_id(created) {
            None => Err(remote_failure()),
            Some(id) => Ok((s, NextModel::Done(Some(delivered_link(s, id))))),
        }
    }
}

/// What follows a reply of the target. An update without a body is read back before it counts.
pub open spec fn advanced(s: StepModel, r: ScimReplyModel) -> Result<(StepModel, NextModel), Failure> {
    if s.phase == Phase::Update && r.status == 204 {
        match url_with_segment(collection_url(s), s.remote_id) {
            None => Err(remote_failure()),
            Some(url) => Ok(
                (
                    StepModel { phase: Phase::Reread, ..s },
                    NextModel::Send(ScimRequestModel::Get { url }),
                ),
            ),
        }
    } else if !(200 <= r.status < 300) || r.body is None {
        Err(remote_failure())
    } else {
        match s.phase {
            Phase::Lookup => after_lookup(s, r.body->0),
            Phase::Fetch => after_fetch(s, r, r.body->0),
            Phase::Update => after_update(s, r.body->0),
            Phase::Reread => after_update(s, r.body->0),
            Phase::Create => after_create(s, r.body->0),
        }
    }
}

/// Starts the delivery of a resource to the target at `url`.
pub fn begin_step(tx: &Tx, job: &Job, resource: &Resource, url: &str) -> (r: Result<Step, Error>)
    ensures
        agrees_with(r, begun(tx@, job@, resource@, url@)),
{
    let mut body = resource.body.dup();
    let group = same(resource.kind.as_str(), "Groups");
    if group {
        match find_members(
            &tx.provisioning_links,
            job.plan.target.as_str(),
            &resource.member_ids,
        ) {
            None => return Err(Error::conflict("Group user has not been provisioned")),
            Some(m) => {
                body.set("members", m);
            },
        }
    }
    let external_id = match body.get_text("externalId") {
        Some(t) => t.clone(),
        None => return Err(Error::internal("Missing external identity")),
    };
    let key = link_key(
        job.plan.target.as_str(),
        resource.kind.as_str(),
        resource.local_id.as_str(),
    );
    let known = match tx.provisioning_links.get(key.as_str()) {
        Some(l) => Some(l.remote_id.clone()),
        None => None,
    };
    assert(texts(resource.member_ids@).len() == resource.member_ids.len());
    Ok(
        Step {
            plan_id: job.plan.id.clone(),
            target: job.plan.target.clone(),
            url: url.to_owned(),
            kind: resource.kind.clone(),
            local_id: resource.local_id.clone(),
            no_members: group && resource.member_ids.len() == 0,
            body,
            external_id,
            known,
            phase: Phase::Lookup,
            remote_id: "".to_owned(),
        },
    )
}

fn text_is(v: &Json, key: &str, want: &str) -> (r: bool)
    ensures
        r == (text_of(v@, key@) == Some(want@)),
{
    match v.get_text(key) {
        Some(t) => same(t.as_str(), want),
        None => false,
    }
}

fn find_account_id(v: &Json) -> (r: Option<String>)
    ensures
        opt_text(r) == account_id(v@),
{
    match v.get_text("id") {
        Some(id) => {
            if !id.as_str().is_empty() && byte_len(id.as_str()) <= 512 {
                Some(id.clone())
            } else {
                None
            }
        },
        None => None,
    }
}

impl Step {
    fn collection(&self) -> (r: String)
        ensures
            r@ == collection_url(self@),
    {
        let base = trim_end_of(self.url.as_str(), '/');
        concat3(base.as_str(), "/", self.kind.as_str())
    }

    fn key(&self) -> (r: String)
        ensures
            r@ == write_key(self@),
    {
        let id = concat3(self.kind.as_str(), ":", self.local_id.as_str());
        let hash = digest(id.as_str());
        let mut r = concat3("ri-", self.plan_id.as_str(), "-");
        r.append(hash.as_str());
        r
    }

    /// The request that starts the delivery.
    pub fn first_request(&self) -> (r: ScimRequest)
        ensures
            r@ == find_request(self@),
    {
        let quoted = quote_json(self.external_id.as_str());
        ScimRequest::Find {
            url: self.collection(),
            filter: concat("externalId eq ", quoted.as_str()),
        }
    }

    fn link(&self, remote_id: &str) -> (r: Link)
        ensures
            r@ == delivered_link(self@, remote_id@),
    {
        Link {
            target: self.target.clone(),
            url: self.url.clone(),
            kind: self.kind.clone(),
            local_id: self.local_id.clone(),
            remote_id: remote_id.to_owned(),
            external_id: self.external_id.clone(),
            body: self.body.dup(),
        }
    }

    fn find_found<'a>(&self, found: &'a Json) -> (r: Result<Option<&'a Json>, Error>)
        ensures
            match found_account(self@, found@) {
                Err(f) => fails(r, f),
                Ok(None) => r is Ok && r->Ok_0 is None,
                Ok(Some(a)) => r is Ok && r->Ok_0 is Some && (r->Ok_0)->0@ == a,
            },
    {
        let list = match found.get("Resources") {
            Some(Json::Array(v)) => v,
            _ => return Err(remote_error()),
        };
        proof {
            lemma_items(*list, list.len() as nat);
        }
        let n = match found.get("totalResults") {
            Some(v) => v.as_number(),
            None => None,
        };
        let counted = match n {
            Some(k) => k == list.len() as u64,
            None => false,
        };
        if !counted || list.len() > 1 {
            return Err(
                Error::conflict(
                    "Remote external identity is ambiguous; refusing to choose an account",
                ),
            );
        }
        if list.len() == 0 {
            return Ok(None);
        }
        if !text_is(&list[0], "externalId", self.external_id.as_str()) {
            return Err(
                Error::conflict(
                    "Remote external identity is ambiguous; refusing to choose an account",
                ),
            );
        }
        Ok(Some(&list[0]))
    }

    fn take_lookup(&mut self, found: &Json) -> (r: Result<Next, Error>)
        ensures
            match after_lookup(old(self)@, found@) {
                Ok(p) => final(self)@ == p.0 && r is Ok && r->Ok_0@ == p.1,
                Err(f) => fails(r, f) && final(self)@ == old(self)@,
            },
    {
        match self.find_found(found) {
            Err(e) => Err(e),
            Ok(Some(account)) => {
                let id = match find_account_id(account) {
                    Some(i) => i,
                    None => return Err(remote_error()),
                };
                if self.known.is_some() && !opt_is(&self.known, id.as_str()) {
                    return Err(
                        Error::conflict(
                            "Remote account ID changed; review before replacing its binding",
                        ),
                    );
                }
                let base = self.collection();
                match append_segment(base.as_str(), id.as_str()) {
                    None => Err(remote_error()),
                    Some(url) => {
                        self.phase = Phase::Fetch;
                        self.remote_id = id;
                        Ok(Next::Send(ScimRequest::Get { url }))
                    },
                }
            },
            Ok(None) => {
                let inactive = match self.body.get("active") {
                    Some(Json::Bool(b)) => !*b,
                    _ => false,
                };
                if inactive || self.no_members {
                    return Ok(Next::Done(None));
                }
                if self.known.is_some() {
                    return Err(
                        Error::conflict(
                            "Linked remote account is missing; review before recreating it",
                        ),
                    );
                }
                let q = ScimRequest::Post {
                    url: self.collection(),
                    key: self.key(),
                    body: self.body.dup(),
                };
                self.phase = Phase::Create;
                Ok(Next::Send(q))
            },
        }
    }

    /// The members that an update replaces, and whether there is anything to update.
    fn changes(&self, current: &Json) -> (r: (bool, Vec<Member>))
        ensures
            r.0 == needs_update(self@.body, current@),
            self@.body matches JsonModel::Object(m) ==> members_of(r.1@) == m.filter(
                changed(current@),
            ),
    {
        let mut out: Vec<Member> = Vec::new();
        let mut needed: bool = false;
        match &self.body {
            Json::Object(v) => {
                proof {
                    lemma_members(*v, v.len() as nat);
                }
                let ghost m = member_models(*v, v.len() as nat);
                let ghost p = changed(current@);
                let mut i: usize = 0;
                assert(members_of(out@) =~= m.take(0).filter(p));
                while i < v.len()
                    invariant
                        i <= v.len(),
                        m == member_models(*v, v.len() as nat),
                        m.len() == v.len(),
                        p == changed(current@),
                        forall|j: int|
                            0 <= j < v.len() ==> #[trigger] m[j] == (v[j].key@, json_model(v[j].value)),
                        members_of(out@) == m.take(i as int).filter(p),
                        needed == exists|j: int|
                            0 <= j < i && (#[trigger] m[j]).0 != "schemas"@ && !member_managed(
                                m[j].0,
                                m[j].1,
                                current@.member(m[j].0),
                            ),
                    decreases v.len() - i,
                {
                    assert(m[i as int] == (v[i as int].key@, json_model(v[i as int].value)));
                    let ghost was = members_of(out@);
                    proof {
                        assert(m.take(i + 1) =~= m.take(i as int).push(m[i as int]));
                        m.take(i as int).lemma_filter_push(m[i as int], p);
                    }
                    let key = v[i].key.as_str();
                    let found = current.get(key);
                    let equal = managed_member_equal(key, &v[i].value, found);
                    if !same(key, "schemas") && !equal {
                        needed = true;
                        if !same(key, "externalId") {
                            let x = Member { key: v[i].key.clone(), value: v[i].value.dup() };
                            let ghost xm = (x.key@, x.value@);
                            out.push(x);
                            assert(members_of(out@) =~= was.push(xm));
                        }
                    }
                    i = i + 1;
                }
                assert(m.take(i as int) =~= m);
            },
            _ => {},
        }
        (needed, out)
    }

    fn take_fetch(&mut self, reply: &ScimReply, current: &Json) -> (r: Result<Next, Error>)
        ensures
            match after_fetch(old(self)@, reply@, current@) {
                Ok(p) => final(self)@ == p.0 && r is Ok && r->Ok_0@ == p.1,
                Err(f) => fails(r, f) && final(self)@ == old(self)@,
            },
    {
        if !text_is(current, "externalId", self.external_id.as_str()) || !text_is(
            current,
            "id",
            self.remote_id.as_str(),
        ) {
            return Err(Error::conflict("Remote account binding changed"));
        }
        let (needed, members) = self.changes(current);
        if !needed {
            let l = self.link(self.remote_id.as_str());
            return Ok(Next::Done(Some(l)));
        }
        let etag = match &reply.etag {
            Some(e) => e.clone(),
            None => {
                let version = match current.get("meta") {
                    Some(meta) => match meta.get_text("version") {
                        Some(v) => Some(v.clone()),
                        None => None,
                    },
                    None => None,
                };
                match version {
                    Some(v) => v,
                    None => return Err(
                        Error::bad("SCIM target must supply an ETag for conditional updates"),
                    ),
                }
            },
        };
        let base = self.collection();
        match append_segment(base.as_str(), self.remote_id.as_str()) {
            None => Err(remote_error()),
            Some(url) => {
                let body = make_patch(members);
                let q = ScimRequest::Patch { url, etag, key: self.key(), body };
                self.phase = Phase::Update;
                Ok(Next::Send(q))
            },
        }
    }

    fn take_update(&self, updated: &Json) -> (r: Result<Next, Error>)
        ensures
            match after_update(self@, updated@) {
                Ok(p) => self@ == p.0 && r is Ok && r->Ok_0@ == p.1,
                Err(f) => fails(r, f),
            },
    {
        if !text_is(updated, "id", self.remote_id.as_str()) || !text_is(
            updated,
            "externalId",
            self.external_id.as_str(),
        ) || !managed_equal(&self.body, updated) {
            return Err(remote_error());
        }
        let l = self.link(self.remote_id.as_str());
        Ok(Next::Done(Some(l)))
    }

    fn take_create(&self, created: &Json) -> (r: Result<Next, Error>)
        ensures
            match after_create(self@, created@) {
                Ok(p) => self@ == p.0 && r is Ok && r->Ok_0@ == p.1,
                Err(f) => fails(r, f),
            },
    {
        if !text_is(created, "externalId", self.external_id.as_str()) || !managed_equal(
            &self.body,
            created,
        ) {
            return Err(remote_error());
        }
        match find_account_id(created) {
            None => Err(remote_error()),
            Some(id) => {
                let l = self.link(id.as_str());
                Ok(Next::Done(Some(l)))
            },
        }
    }

    /// Takes a reply of the target: what to send next, or the link of the delivered resource.
    pub fn advance(&mut self, reply: &ScimReply) -> (r: Result<Next, Error>)
        ensures
            match advanced(old(self)@, reply@) {
                Ok(p) => final(self)@ == p.0 && r is Ok && r->Ok_0@ == p.1,
                Err(f) => fails(r, f) && final(self)@ == old(self)@,
            },
    {
        let updating = match self.phase {
            Phase::Update => true,
            _ => false,
        };
        if updating && reply.status == 204 {
            let base = self.collection();
            return match append_segment(base.as_str(), self.remote_id.as_str()) {
                None => Err(remote_error()),
                Some(url) => {
                    self.phase = Phase::Reread;
                    Ok(Next::Send(ScimRequest::Get { url }))
                },
            };
        }
        if reply.status < 200 || reply.status >= 300 {
            return Err(remote_error());
        }
        let body = match &reply.body {
            Some(b) => b,
            None => return Err(remote_error()),
        };
        match self.phase {
            Phase::Lookup => self.take_lookup(body),
            Phase::Fetch => self.take_fetch(reply, body),
            Phase::Update => self.take_update(body),
            Phase::Reread => self.take_update(body),
            Phase::Create => self.take_create(body),
        }
    }
}

fn make_patch(members: Vec<Member>) -> (r: Json)
    ensures
        r@ == patch_with(members_of(members@)),
{
    let ghost mm = members_of(members@);
    proof {
        lemma_members_of(members);
    }
    let value = Json::Object(members);
    let ghost vm = value@;
    let mut op: Vec<Member> = Vec::new();
    op.push(member("op", text("replace")));
    op.push(member("value", value));
    proof {
        lemma_members_of(op);
        assert(members_of(op@) =~= seq![("op"@, JsonModel::Text("replace"@)), ("value"@, vm)]);
    }
    let mut ops: Vec<Json> = Vec::new();
    ops.push(Json::Object(op));
    proof {
        lemma_items_of(ops);
        assert(items_of(ops@) =~= seq![
            JsonModel::Object(seq![("op"@, JsonModel::Text("replace"@)), ("value"@, vm)]),
        ]);
    }
    let mut schemas: Vec<Json> = Vec::new();
    schemas.push(text("urn:ietf:params:scim:api:messages:2.0:PatchOp"));
    proof {
        lemma_items_of(schemas);
        assert(items_of(schemas@) =~= seq![
            JsonModel::Text("urn:ietf:params:scim:api:messages:2.0:PatchOp"@),
        ]);
    }
    let mut out: Vec<Member> = Vec::new();
    out.push(member("schemas", Json::Array(schemas)));
    out.push(member("Operations", Json::Array(ops)));
    proof {
        lemma_members_of(out);
        assert(members_of(out@) =~= (patch_with(mm)->Object_0));
    }
    Json::Object(out)
}

/// A resource is linked only after the target showed it with the expected external id: a lost or
/// incomplete update is never taken for success.
pub proof fn links_are_confirmed(s: StepModel, r: ScimReplyModel)
    requires
        advanced(s, r) is Ok,
        (advanced(s, r)->Ok_0).1 matches NextModel::Done(Some(_)),
    ensures
        r.body is Some,
        text_of(r.body->0, "externalId"@) == Some(s.external_id),
        s.phase == Phase::Fetch ==> !needs_update(s.body, r.body->0),
        s.phase != Phase::Fetch ==> managed(s.body, r.body->0),
        ({
            let l = ((advanced(s, r)->Ok_0).1->Done_0)->0;
            l.external_id == s.external_id && l.target == s.target && l.local_id == s.local_id
        }),
{
}

/// What follows a look-up. An account that the target knows under this identity is fetched; an account
/// that it does not know is created, unless it is one to disable or a group to empty, or one that was
/// linked before.
pub proof fn lookups_find_or_create_the_account(s: StepModel, found: JsonModel, list: Seq<JsonModel>)
    requires
        found.member("Resources"@) == Some(JsonModel::Array(list)),
        found.member("totalResults"@) == Some(JsonModel::Unsigned(list.len() as u64)),
        list.len() <= 1,
        list.len() == 1 ==> text_of(list[0], "externalId"@) == Some(s.external_id) && (text_of(
            list[0],
            "id"@,
        ) matches Some(id) && id.len() > 0 && byte_count(id) <= 512 && url_with_segment(
            collection_url(s),
            id,
        ) is Some && (s.known is None || s.known == Some(id))),
    ensures
        ({
            let out = after_lookup(s, found);
            &&& list.len() == 1 ==> out is Ok && (out->Ok_0).0.phase == Phase::Fetch && Some(
                (out->Ok_0).0.remote_id,
            ) == text_of(list[0], "id"@) && ((out->Ok_0).1 matches NextModel::Send(
                ScimRequestModel::Get { url },
            ) && Some(url) == url_with_segment(
                trim_end_char(s.url, '/') + "/"@ + s.kind,
                (out->Ok_0).0.remote_id,
            ))
            &&& list.len() == 0 && (s.body.member("active"@) == Some(JsonModel::Bool(false))
                || s.no_members) ==> out == Ok::<(StepModel, NextModel), Failure>(
                (s, NextModel::Done(None)),
            )
            &&& list.len() == 0 && s.body.member("active"@) != Some(JsonModel::Bool(false))
                && !s.no_members && s.known is None ==> out is Ok && (out->Ok_0).0.phase
                == Phase::Create && ((out->Ok_0).1 matches NextModel::Send(
                ScimRequestModel::Post { url, key, body },
            ) && url == trim_end_char(s.url, '/') + "/"@ + s.kind && body == s.body)
            &&& list.len() == 0 && s.body.member("active"@) != Some(JsonModel::Bool(false))
                && !s.no_members && s.known is Some ==> out is Err
        }),
{
}

/// An account that is as it should be is left alone; any other is changed where it differs, under the
/// version that was read.
pub proof fn only_differences_are_sent(s: StepModel, r: ScimReplyModel, current: JsonModel)
    requires
        text_of(current, "externalId"@) == Some(s.external_id),
        text_of(current, "id"@) == Some(s.remote_id),
        r.etag is Some,
        url_with_segment(collection_url(s), s.remote_id) is Some,
    ensures
        ({
            let out = after_fetch(s, r, current);
            &&& out is Ok
            &&& !needs_update(s.body, current) ==> ((out->Ok_0).1 matches NextModel::Done(Some(l))
                && l.remote_id == s.remote_id && l.body == s.body)
            &&& needs_update(s.body, current) ==> (out->Ok_0).0.phase == Phase::Update && ((
            out->Ok_0).1 matches NextModel::Send(ScimRequestModel::Patch { url, etag, key, body })
                && etag == r.etag->0 && body == patch_of(s.body, current) && Some(url)
                == url_with_segment(collection_url(s), s.remote_id))
        }),
{
}

/// A delivery is remembered by what was delivered, where, and as which account.
pub proof fn deliveries_are_remembered(s: StepModel, created: JsonModel)
    requires
        text_of(created, "externalId"@) == Some(s.external_id),
        managed(s.body, created),
        text_of(created, "id"@) matches Some(id) && id.len() > 0 && byte_count(id) <= 512,
    ensures
        after_create(s, created) == Ok::<(StepModel, NextModel), Failure>(
            (
                s,
                NextModel::Done(
                    Some(
                        LinkModel {
                            target: s.target,
                            url: s.url,
                            kind: s.kind,
                            local_id: s.local_id,
                            remote_id: text_of(created, "id"@)->0,
                            external_id: s.external_id,
                            body: s.body,
                        },
                    ),
                ),
            ),
        ),
{
}

/// A delivery begins by looking its identity up, and for a group with the accounts of its members at the
/// target.
pub proof fn deliveries_begin_with_a_lookup(
    t: TxModel,
    j: JobModel,
    r: ResourceModel,
    url: Seq<char>,
)
    requires
        begun(t, j, r, url) is Ok,
    ensures
        ({
            let s = begun(t, j, r, url)->Ok_0;
            let key = digest_of(j.plan.target + "\0"@ + r.kind + "\0"@ + r.local_id);
            &&& s.phase == Phase::Lookup
            &&& s.plan_id == j.plan.id && s.target == j.plan.target && s.url == url
            &&& s.kind == r.kind && s.local_id == r.local_id
            &&& text_of(s.body, "externalId"@) == Some(s.external_id)
            &&& r.kind != "Groups"@ ==> s.body == r.body && !s.no_members
            &&& r.kind == "Groups"@ ==> s.no_members == (r.member_ids.len() == 0)
            &&& s.known == if t.provisioning_links.dom().contains(key) {
                Some(t.provisioning_links[key].remote_id)
            } else {
                None
            }
            &&& find_request(s) == (ScimRequestModel::Find {
                url: trim_end_char(url, '/') + "/"@ + r.kind,
                filter: "externalId eq "@ + json_quoted(s.external_id),
            })
        }),
{
}

/// A reply counts only if it says that it succeeded and has a body; an update may be answered without
/// one, and the account is then read again.
pub proof fn only_successful_replies_count(s: StepModel, r: ScimReplyModel)
    ensures
        advanced(s, r) is Ok ==> 200 <= r.status <= 299,
        advanced(s, r) is Ok && r.body is None ==> s.phase == Phase::Update && r.status == 204,
        s.phase == Phase::Update && r.status == 204 && url_with_segment(collection_url(s), s.remote_id) is Some
            ==> (advanced(s, r) matches Ok((n, NextModel::Send(ScimRequestModel::Get { url }))) && n.phase
            == Phase::Reread && n.remote_id == s.remote_id && Some(url) == url_with_segment(
            collection_url(s),
            s.remote_id,
        )),
{
}

/// An account is chosen only if it is the one with our identity: a reply with several, with another
/// identity or with another count is refused, and so is an account that changed its number.
pub proof fn ambiguous_accounts_are_refused(s: StepModel, found: JsonModel, list: Seq<JsonModel>, n: u64)
    requires
        found.member("Resources"@) == Some(JsonModel::Array(list)),
        found.member("totalResults"@) == Some(JsonModel::Unsigned(n)),
    ensures
        n != list.len() ==> after_lookup(s, found) is Err,
        list.len() > 1 ==> after_lookup(s, found) is Err,
        list.len() == 1 && text_of(list[0], "externalId"@) != Some(s.external_id) ==> after_lookup(s, found) is Err,
        list.len() == 1 && s.known is Some && text_of(list[0], "id"@) != s.known ==> after_lookup(s, found) is Err,
{
}

/// An account that is not ours any more is left alone, and an update counts only if the account that
/// comes back is ours and has what was sent.
pub proof fn changed_accounts_are_left_alone(s: StepModel, r: ScimReplyModel, current: JsonModel)
    ensures
        text_of(current, "externalId"@) != Some(s.external_id) || text_of(current, "id"@) != Some(s.remote_id)
            ==> after_fetch(s, r, current) is Err,
        after_update(s, current) is Ok <==> text_of(current, "externalId"@) == Some(s.external_id) && text_of(
            current,
            "id"@,
        ) == Some(s.remote_id) && managed(s.body, current),
        after_update(s, current) matches Ok((n, NextModel::Done(Some(l)))) ==> n == s && l.remote_id
            == s.remote_id && l.external_id == s.external_id && l.local_id == s.local_id && l.target
            == s.target && l.url == s.url && l.kind == s.kind && l.body == s.body,
        after_create(s, current) is Ok ==> text_of(current, "externalId"@) == Some(s.external_id) && managed(
            s.body,
            current,
        ),
{
}

/// A change is sent as one replacement of the values that changed.
pub proof fn changes_are_sent_as_one_replacement(changes: Seq<(Seq<char>, JsonModel)>)
    ensures
        patch_with(changes).member("Operations"@) matches Some(JsonModel::Array(v)) && v.len() == 1
            && v[0].member("op"@) == Some(JsonModel::Text("replace"@)) && v[0].member("value"@) == Some(
            JsonModel::Object(changes),
        ),
        patch_with(changes).member("schemas"@) == Some(
            JsonModel::Array(
                seq![JsonModel::Text("urn:ietf:params:scim:api:messages:2.0:PatchOp"@)],
            ),
        ),
{
    reveal_with_fuel(crate::json::lookup, 3);
    reveal_strlit("schemas");
    reveal_strlit("Operations");
    reveal_strlit("op");
    reveal_strlit("value");
    assert("schemas"@.len() == 7 && "Operations"@.len() == 10 && "op"@.len() == 2 && "value"@.len() == 5);
    let m = patch_with(changes)->Object_0;
    let op = ((m[1].1)->Array_0)[0];
    let n = op->Object_0;
    assert(m.drop_first()[0] == m[1]);
    assert(n.drop_first()[0] == n[1]);
    assert(op.member("op"@) == Some(JsonModel::Text("replace"@)));
    assert(op.member("value"@) == Some(JsonModel::Object(changes)));
    assert(patch_with(changes).member("Operations"@) == Some(m[1].1));
}

/// A group is delivered with the numbers that its members have at the target, in their order; it waits
/// for members that have none yet.
pub proof fn groups_are_delivered_with_remote_members(
    t: TxModel,
    target: Seq<char>,
    r: ResourceModel,
    b: Seq<(Seq<char>, JsonModel)>,
    i: int,
)
    requires
        r.kind == "Groups"@,
        r.body == JsonModel::Object(b),
        0 <= i < r.member_ids.len(),
    ensures
        !t.provisioning_links.dom().contains(link_key_of(target, "Users"@, r.member_ids[i])) ==> delivered_body(
            t,
            target,
            r,
        ) is Err,
        delivered_body(t, target, r) matches Ok(body) ==> (body.member("members"@) matches Some(
            JsonModel::Array(v),
        ) && v.len() == r.member_ids.len() && v[i] == JsonModel::Object(
            seq![
                (
                    "value"@,
                    JsonModel::Text(
                        t.provisioning_links[link_key_of(target, "Users"@, r.member_ids[i])].remote_id,
                    ),
                ),
            ],
        )),
{
    lemma_remote_member(t.provisioning_links, target, r.member_ids, i);
    if let Some(m) = remote_members(t.provisioning_links, target, r.member_ids) {
        a_member_that_is_set_is_found(b, "members"@, JsonModel::Array(m), "members"@);
    }
}

proof fn lemma_remote_member(links: Map<Seq<char>, LinkModel>, target: Seq<char>, ids: Seq<Seq<char>>, i: int)
    requires
        0 <= i < ids.len(),
    ensures
        !links.dom().contains(link_key_of(target, "Users"@, ids[i])) ==> remote_members(links, target, ids) is None,
        remote_members(links, target, ids) matches Some(v) ==> v.len() == ids.len() && v[i]
            == JsonModel::Object(
            seq![("value"@, JsonModel::Text(links[link_key_of(target, "Users"@, ids[i])].remote_id))],
        ),
    decreases ids.len(),
{
    let d = ids.drop_last();
    if i < d.len() {
        assert(d[i] == ids[i]);
        lemma_remote_member(links, target, d, i);
    } else if d.len() > 0 {
        lemma_remote_member(links, target, d, 0);
    }
}

} // verus!
