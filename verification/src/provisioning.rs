//! Agent-approved outbound SCIM reconciliation with immutable plans and durable jobs.
pub mod delivery;
pub mod jobs;
pub mod planning;
pub mod token;

use crate::engine::Core;
use crate::error::{Error, Failure, agrees, and_also};
use crate::json::{Json, JsonModel, item_models, json_model, lemma_items, lemma_members, lookup, member_models, same_scalar};
use crate::names::{Names, in_order};
use crate::outside::{digest, digest_of};
use crate::rules::{Rules, RulesModel, names_check};
use crate::table::{Row, Table, rows_in, views};
use crate::text::{all_graphic, byte_count, byte_len, concat3, copy_opt, has_control, is_graphic, opt_text, same, some_control};
use vstd::prelude::*;
use vstd::string::*;

verus! {

/// Where accounts are provisioned to. It has either a static bearer credential or an OAuth client.
pub struct Target {
    pub url: String,
    pub token_file: Option<String>,
    pub oauth: Option<Oauth>,
    pub ca_file: Option<String>,
    pub groups: Names,
    pub export_groups: bool,
}

/// What a [`Target`] holds.
pub struct TargetModel {
    pub url: Seq<char>,
    pub token_file: Option<Seq<char>>,
    pub oauth: Option<OauthModel>,
    pub ca_file: Option<Seq<char>>,
    pub groups: Set<Seq<char>>,
    pub export_groups: bool,
}

impl View for Target {
    type V = TargetModel;

    open spec fn view(&self) -> TargetModel {
        TargetModel {
            url: self.url@,
            token_file: crate::text::opt_text(self.token_file),
            oauth: crate::table::opt_view(self.oauth),
            ca_file: crate::text::opt_text(self.ca_file),
            groups: self.groups@,
            export_groups: self.export_groups,
        }
    }
}

impl Row for Target {
    fn dup(&self) -> (r: Self) {
        Target {
            url: self.url.clone(),
            token_file: crate::text::copy_opt(&self.token_file),
            oauth: crate::table::dup_opt(&self.oauth),
            ca_file: crate::text::copy_opt(&self.ca_file),
            groups: self.groups.copy(),
            export_groups: self.export_groups,
        }
    }
}

/// The OAuth grants that a target supports. The password grant is not accepted.
#[derive(Clone, Copy, PartialEq, Eq, Structural, Debug)]
pub enum OauthGrant {
    ClientCredentials,
    RefreshToken,
}

/// An OAuth client of a target. Its secrets stay in the named private files.
pub struct Oauth {
    pub token_url: String,
    pub grant: OauthGrant,
    pub client_id: String,
    pub client_secret_file: Option<String>,
    pub refresh_token_file: Option<String>,
    pub scope: Option<String>,
    pub audience: Option<String>,
    pub ca_file: Option<String>,
}

/// What a [`Oauth`] holds.
pub struct OauthModel {
    pub token_url: Seq<char>,
    pub grant: OauthGrant,
    pub client_id: Seq<char>,
    pub client_secret_file: Option<Seq<char>>,
    pub refresh_token_file: Option<Seq<char>>,
    pub scope: Option<Seq<char>>,
    pub audience: Option<Seq<char>>,
    pub ca_file: Option<Seq<char>>,
}

impl View for Oauth {
    type V = OauthModel;

    open spec fn view(&self) -> OauthModel {
        OauthModel {
            token_url: self.token_url@,
            grant: self.grant,
            client_id: self.client_id@,
            client_secret_file: crate::text::opt_text(self.client_secret_file),
            refresh_token_file: crate::text::opt_text(self.refresh_token_file),
            scope: crate::text::opt_text(self.scope),
            audience: crate::text::opt_text(self.audience),
            ca_file: crate::text::opt_text(self.ca_file),
        }
    }
}

impl Row for Oauth {
    fn dup(&self) -> (r: Self) {
        Oauth {
            token_url: self.token_url.clone(),
            grant: self.grant,
            client_id: self.client_id.clone(),
            client_secret_file: crate::text::copy_opt(&self.client_secret_file),
            refresh_token_file: crate::text::copy_opt(&self.refresh_token_file),
            scope: crate::text::copy_opt(&self.scope),
            audience: crate::text::copy_opt(&self.audience),
            ca_file: crate::text::copy_opt(&self.ca_file),
        }
    }
}

pub open spec fn grant_name(g: OauthGrant) -> Seq<char> {
    match g {
        OauthGrant::ClientCredentials => "client_credentials"@,
        OauthGrant::RefreshToken => "refresh_token"@,
    }
}

impl OauthGrant {
    pub fn as_str(self) -> (r: &'static str)
        ensures
            r@ == grant_name(self),
    {
        match self {
            OauthGrant::ClientCredentials => "client_credentials",
            OauthGrant::RefreshToken => "refresh_token",
        }
    }
}

/// A parameter is unset, or a bounded text without control characters.
pub open spec fn parameter_check(value: Option<Seq<char>>, limit: nat, name: Seq<char>) -> Result<
    (),
    Failure,
> {
    match value {
        None => Ok(()),
        Some(v) => if v.len() == 0 || byte_count(v) > limit || some_control(v) {
            Err(
                Failure::Bad(
                    "SCIM OAuth "@ + name + " is empty, too long, or contains control characters"@,
                ),
            )
        } else {
            Ok(())
        },
    }
}

pub fn validate_oauth_parameter(value: &Option<String>, limit: usize, name: &str) -> (r: Result<
    (),
    Error,
>)
    ensures
        agrees(r, parameter_check(opt_text(*value), limit as nat, name@)),
{
    match value {
        None => Ok(()),
        Some(v) => {
            if v.as_str().is_empty() || byte_len(v.as_str()) > limit || has_control(v.as_str()) {
                let m = concat3(
                    "SCIM OAuth ",
                    name,
                    " is empty, too long, or contains control characters",
                );
                Err(Error::Bad(m))
            } else {
                Ok(())
            }
        },
    }
}

pub open spec fn oauth_check(o: OauthModel, rules: RulesModel) -> Result<(), Failure> {
    if !rules.server_urls.contains(o.token_url) {
        Err(Failure::Bad("SCIM OAuth token URL must be canonical HTTPS or HTTP loopback"@))
    } else if o.client_id.len() == 0 || byte_count(o.client_id) > 256 || !all_graphic(o.client_id) {
        Err(Failure::Bad("SCIM OAuth client_id must be 1–256 ASCII graphic characters"@))
    } else {
        and_also(
            parameter_check(o.scope, 1024, "scope"@),
            and_also(
                parameter_check(o.audience, 512, "audience"@),
                match o.grant {
                    OauthGrant::ClientCredentials => if o.client_secret_file is None
                        || o.refresh_token_file is Some {
                        Err(
                            Failure::Bad(
                                "client_credentials requires client_secret_file and does not use refresh_token_file"@,
                            ),
                        )
                    } else {
                        Ok(())
                    },
                    OauthGrant::RefreshToken => if o.refresh_token_file is None {
                        Err(
                            Failure::Bad(
                                "refresh_token grant requires refresh_token_file; riAuth does not write that file"@,
                            ),
                        )
                    } else {
                        Ok(())
                    },
                },
            ),
        )
    }
}

pub fn validate_oauth(oauth: &Oauth, rules: &Rules) -> (r: Result<(), Error>)
    ensures
        agrees(r, oauth_check(oauth@, rules@)),
{
    if !rules.server_urls.contains(oauth.token_url.as_str()) {
        return Err(
            Error::bad("SCIM OAuth token URL must be canonical HTTPS or HTTP loopback"),
        );
    }
    let id = oauth.client_id.as_str();
    if id.is_empty() || byte_len(id) > 256 || !is_graphic(id) {
        return Err(Error::bad("SCIM OAuth client_id must be 1–256 ASCII graphic characters"));
    }
    if let Err(e) = validate_oauth_parameter(&oauth.scope, 1024, "scope") {
        return Err(e);
    }
    if let Err(e) = validate_oauth_parameter(&oauth.audience, 512, "audience") {
        return Err(e);
    }
    match oauth.grant {
        OauthGrant::ClientCredentials => {
            if oauth.client_secret_file.is_none() || oauth.refresh_token_file.is_some() {
                return Err(
                    Error::bad(
                        "client_credentials requires client_secret_file and does not use refresh_token_file",
                    ),
                );
            }
        },
        OauthGrant::RefreshToken => {
            if oauth.refresh_token_file.is_none() {
                return Err(
                    Error::bad(
                        "refresh_token grant requires refresh_token_file; riAuth does not write that file",
                    ),
                );
            }
        },
    }
    Ok(())
}

pub open spec fn scim_target_check(t: TargetModel, rules: RulesModel) -> Result<(), Failure> {
    if !rules.server_urls.contains(t.url) {
        Err(Failure::Bad("SCIM target requires canonical HTTPS or HTTP loopback"@))
    } else if t.groups.len() == 0 || t.groups.len() > 64 {
        Err(Failure::Bad("Select one to 64 explicit groups for SCIM provisioning"@))
    } else {
        and_also(
            names_check(rules, in_order(t.groups)),
            if (t.token_file is Some) == (t.oauth is Some) {
                Err(Failure::Bad("SCIM target requires exactly one of token_file or oauth"@))
            } else {
                match t.oauth {
                    Some(o) => oauth_check(o, rules),
                    None => Ok(()),
                }
            },
        )
    }
}

impl Target {
    pub fn validate(&self, rules: &Rules) -> (r: Result<(), Error>)
        ensures
            agrees(r, scim_target_check(self@, rules@)),
    {
        if !rules.server_urls.contains(self.url.as_str()) {
            return Err(Error::bad("SCIM target requires canonical HTTPS or HTTP loopback"));
        }
        if self.groups.is_empty() || self.groups.len() > 64 {
            return Err(Error::bad("Select one to 64 explicit groups for SCIM provisioning"));
        }
        if let Err(e) = rules.check_names(&self.groups) {
            return Err(e);
        }
        if self.token_file.is_some() == self.oauth.is_some() {
            return Err(Error::bad("SCIM target requires exactly one of token_file or oauth"));
        }
        if let Some(o) = &self.oauth {
            return validate_oauth(o, rules);
        }
        Ok(())
    }
}

/// A remote account or group as it should be.
pub struct Resource {
    pub kind: String,
    pub local_id: String,
    pub body: Json,
    pub member_ids: Vec<String>,
}

/// What a [`Resource`] holds.
pub struct ResourceModel {
    pub kind: Seq<char>,
    pub local_id: Seq<char>,
    pub body: JsonModel,
    pub member_ids: Seq<Seq<char>>,
}

impl View for Resource {
    type V = ResourceModel;

    open spec fn view(&self) -> ResourceModel {
        ResourceModel {
            kind: self.kind@,
            local_id: self.local_id@,
            body: self.body@,
            member_ids: crate::text::texts(self.member_ids@),
        }
    }
}

impl Row for Resource {
    fn dup(&self) -> (r: Self) {
        Resource {
            kind: self.kind.clone(),
            local_id: self.local_id.clone(),
            body: self.body.dup(),
            member_ids: crate::text::copy_list(&self.member_ids),
        }
    }
}

/// An approved snapshot of what a target should hold.
pub struct Plan {
    pub id: String,
    pub target: String,
    pub actor: String,
    pub revision: u64,
    pub expires_at: u64,
    pub target_fingerprint: String,
    pub resources: Vec<Resource>,
}

/// What a [`Plan`] holds.
pub struct PlanModel {
    pub id: Seq<char>,
    pub target: Seq<char>,
    pub actor: Seq<char>,
    pub revision: u64,
    pub expires_at: u64,
    pub target_fingerprint: Seq<char>,
    pub resources: Seq<ResourceModel>,
}

impl View for Plan {
    type V = PlanModel;

    open spec fn view(&self) -> PlanModel {
        PlanModel {
            id: self.id@,
            target: self.target@,
            actor: self.actor@,
            revision: self.revision,
            expires_at: self.expires_at,
            target_fingerprint: self.target_fingerprint@,
            resources: crate::table::views(self.resources@),
        }
    }
}

impl Row for Plan {
    fn dup(&self) -> (r: Self) {
        Plan {
            id: self.id.clone(),
            target: self.target.clone(),
            actor: self.actor.clone(),
            revision: self.revision,
            expires_at: self.expires_at,
            target_fingerprint: self.target_fingerprint.clone(),
            resources: crate::table::dup_list(&self.resources),
        }
    }
}

/// The delivery of a plan, one resource after the other.
pub struct Job {
    pub plan: Plan,
    pub cursor: usize,
    pub total: usize,
    pub completed: bool,
    pub stale: bool,
    pub next_attempt: u64,
    pub attempts: u32,
    pub lease: Option<String>,
    pub error: Option<String>,
}

/// What a [`Job`] holds.
pub struct JobModel {
    pub plan: PlanModel,
    pub cursor: usize,
    pub total: usize,
    pub completed: bool,
    pub stale: bool,
    pub next_attempt: u64,
    pub attempts: u32,
    pub lease: Option<Seq<char>>,
    pub error: Option<Seq<char>>,
}

impl View for Job {
    type V = JobModel;

    open spec fn view(&self) -> JobModel {
        JobModel {
            plan: self.plan@,
            cursor: self.cursor,
            total: self.total,
            completed: self.completed,
            stale: self.stale,
            next_attempt: self.next_attempt,
            attempts: self.attempts,
            lease: crate::text::opt_text(self.lease),
            error: crate::text::opt_text(self.error),
        }
    }
}

impl Row for Job {
    fn dup(&self) -> (r: Self) {
        Job {
            plan: self.plan.dup(),
            cursor: self.cursor,
            total: self.total,
            completed: self.completed,
            stale: self.stale,
            next_attempt: self.next_attempt,
            attempts: self.attempts,
            lease: crate::text::copy_opt(&self.lease),
            error: crate::text::copy_opt(&self.error),
        }
    }
}

/// The remote account that a local one was provisioned as.
pub struct Link {
    pub target: String,
    pub url: String,
    pub kind: String,
    pub local_id: String,
    pub remote_id: String,
    pub external_id: String,
    pub body: Json,
}

/// What a [`Link`] holds.
pub struct LinkModel {
    pub target: Seq<char>,
    pub url: Seq<char>,
    pub kind: Seq<char>,
    pub local_id: Seq<char>,
    pub remote_id: Seq<char>,
    pub external_id: Seq<char>,
    pub body: JsonModel,
}

impl View for Link {
    type V = LinkModel;

    open spec fn view(&self) -> LinkModel {
        LinkModel {
            target: self.target@,
            url: self.url@,
            kind: self.kind@,
            local_id: self.local_id@,
            remote_id: self.remote_id@,
            external_id: self.external_id@,
            body: self.body@,
        }
    }
}

impl Row for Link {
    fn dup(&self) -> (r: Self) {
        Link {
            target: self.target.clone(),
            url: self.url.clone(),
            kind: self.kind.clone(),
            local_id: self.local_id.clone(),
            remote_id: self.remote_id.clone(),
            external_id: self.external_id.clone(),
            body: self.body.dup(),
        }
    }
}

pub open spec fn link_key_of(target: Seq<char>, kind: Seq<char>, id: Seq<char>) -> Seq<char> {
    digest_of(target + "\0"@ + kind + "\0"@ + id)
}

pub fn link_key(target: &str, kind: &str, id: &str) -> (r: String)
    ensures
        r@ == link_key_of(target@, kind@, id@),
{
    let mut t = concat3(target, "\0", kind);
    t.append("\0");
    t.append(id);
    digest(t.as_str())
}

/// A job that is not worked on any more.
pub open spec fn terminal(j: JobModel) -> bool {
    j.completed || j.stale
}

/// How many resources a job delivers in all.
pub open spec fn total_of(j: JobModel) -> usize {
    if j.total >= j.plan.resources.len() {
        j.total
    } else {
        j.plan.resources.len() as usize
    }
}

/// A finished job without the bulk of its plan.
pub open spec fn compacted(j: JobModel) -> JobModel {
    if terminal(j) {
        JobModel {
            total: total_of(j),
            plan: PlanModel { resources: Seq::empty(), ..j.plan },
            ..j
        }
    } else {
        j
    }
}

pub fn compact_terminal_job(job: &mut Job)
    ensures
        final(job)@ == compacted(old(job)@),
{
    assert(views(job.plan.resources@).len() == job.plan.resources.len());
    if job.completed || job.stale {
        if job.total < job.plan.resources.len() {
            job.total = job.plan.resources.len();
        }
        job.plan.resources.clear();
        assert(views(job.plan.resources@) =~= Seq::<ResourceModel>::empty());
    }
}

/// What is shown of a job.
pub struct JobView {
    pub id: String,
    pub target: String,
    pub revision: u64,
    pub processed: usize,
    pub total: usize,
    pub completed: bool,
    pub stale: bool,
    pub attempts: u32,
    pub next_attempt: u64,
    pub error: Option<String>,
}

/// What a [`JobView`] holds.
pub struct JobViewModel {
    pub id: Seq<char>,
    pub target: Seq<char>,
    pub revision: u64,
    pub processed: usize,
    pub total: usize,
    pub completed: bool,
    pub stale: bool,
    pub attempts: u32,
    pub next_attempt: u64,
    pub error: Option<Seq<char>>,
}

impl View for JobView {
    type V = JobViewModel;

    open spec fn view(&self) -> JobViewModel {
        JobViewModel {
            id: self.id@,
            target: self.target@,
            revision: self.revision,
            processed: self.processed,
            total: self.total,
            completed: self.completed,
            stale: self.stale,
            attempts: self.attempts,
            next_attempt: self.next_attempt,
            error: crate::text::opt_text(self.error),
        }
    }
}

impl Row for JobView {
    fn dup(&self) -> (r: Self) {
        JobView {
            id: self.id.clone(),
            target: self.target.clone(),
            revision: self.revision,
            processed: self.processed,
            total: self.total,
            completed: self.completed,
            stale: self.stale,
            attempts: self.attempts,
            next_attempt: self.next_attempt,
            error: crate::text::copy_opt(&self.error),
        }
    }
}

pub open spec fn job_shown(j: JobModel) -> JobViewModel {
    JobViewModel {
        id: j.plan.id,
        target: j.plan.target,
        revision: j.plan.revision,
        processed: j.cursor,
        total: total_of(j),
        completed: j.completed,
        stale: j.stale,
        attempts: j.attempts,
        next_attempt: j.next_attempt,
        error: j.error,
    }
}

pub fn job_view(job: &Job) -> (r: JobView)
    ensures
        r@ == job_shown(job@),
{
    assert(views(job.plan.resources@).len() == job.plan.resources.len());
    let total = if job.total >= job.plan.resources.len() {
        job.total
    } else {
        job.plan.resources.len()
    };
    JobView {
        id: job.plan.id.clone(),
        target: job.plan.target.clone(),
        revision: job.plan.revision,
        processed: job.cursor,
        total,
        completed: job.completed,
        stale: job.stale,
        attempts: job.attempts,
        next_attempt: job.next_attempt,
        error: copy_opt(&job.error),
    }
}

/// Whether the managed part of a remote value is as expected: objects may hold more, arrays hold
/// the same items in some order, and a field that holds many values may be left out when empty.
pub open spec fn managed(a: JsonModel, b: JsonModel) -> bool
    decreases a, 0nat,
{
    match a {
        JsonModel::Object(x) => match b {
            JsonModel::Object(y) => members_managed(x, x.len(), y),
            _ => false,
        },
        JsonModel::Array(x) => match b {
            JsonModel::Array(y) => x.len() == y.len() && items_managed(x, x.len(), y),
            _ => false,
        },
        _ => a == b,
    }
}

/// The member `key` is as expected.
pub open spec fn member_managed(key: Seq<char>, a: JsonModel, b: Option<JsonModel>) -> bool
    decreases a, 1nat,
{
    if (key == "members"@ || key == "emails"@) && a == JsonModel::Array(Seq::empty()) && (b is None || b
        == Some(JsonModel::Null)) {
        true
    } else {
        match b {
            Some(v) => managed(a, v),
            None => false,
        }
    }
}

/// The first `n` members are as expected.
pub open spec fn members_managed(
    x: Seq<(Seq<char>, JsonModel)>,
    n: nat,
    y: Seq<(Seq<char>, JsonModel)>,
) -> bool
    decreases x, n,
{
    n == 0 || n > x.len() || (members_managed(x, (n - 1) as nat, y) && member_managed(
        x[n - 1].0,
        x[n - 1].1,
        lookup(y, x[n - 1].0),
    ))
}

/// Each of the first `n` items is among `y`.
pub open spec fn items_managed(x: Seq<JsonModel>, n: nat, y: Seq<JsonModel>) -> bool
    decreases x, n,
{
    n == 0 || n > x.len() || (items_managed(x, (n - 1) as nat, y) && some_managed(x[n - 1], y, y.len()))
}

/// One of the first `m` items of `y` is as expected.
pub open spec fn some_managed(a: JsonModel, y: Seq<JsonModel>, m: nat) -> bool
    decreases a, m + 1,
{
    0 < m <= y.len() && (some_managed(a, y, (m - 1) as nat) || managed(a, y[m - 1]))
}

proof fn lemma_members_differ(
    x: Seq<(Seq<char>, JsonModel)>,
    n: nat,
    y: Seq<(Seq<char>, JsonModel)>,
)
    requires
        n <= x.len(),
        !members_managed(x, n, y),
    ensures
        !members_managed(x, x.len(), y),
    decreases x.len() - n,
{
    if n < x.len() {
        assert(!members_managed(x, n + 1, y));
        lemma_members_differ(x, n + 1, y);
    }
}

proof fn lemma_items_differ(x: Seq<JsonModel>, n: nat, y: Seq<JsonModel>)
    requires
        n <= x.len(),
        !items_managed(x, n, y),
    ensures
        !items_managed(x, x.len(), y),
    decreases x.len() - n,
{
    if n < x.len() {
        assert(!items_managed(x, n + 1, y));
        lemma_items_differ(x, n + 1, y);
    }
}

proof fn lemma_some_found(a: JsonModel, y: Seq<JsonModel>, m: nat)
    requires
        m <= y.len(),
        some_managed(a, y, m),
    ensures
        some_managed(a, y, y.len()),
    decreases y.len() - m,
{
    if m < y.len() {
        assert(some_managed(a, y, m + 1));
        lemma_some_found(a, y, m + 1);
    }
}

pub fn managed_member_equal(key: &str, expected: &Json, actual: Option<&Json>) -> (r: bool)
    ensures
        r == member_managed(
            key@,
            expected@,
            match actual {
                Some(v) => Some(v@),
                None => None,
            },
        ),
    decreases *expected, 1nat,
{
    let many = same(key, "members") || same(key, "emails");
    let empty = match expected {
        Json::Array(v) => {
            proof {
                lemma_items(*v, v.len() as nat);
                if v.len() == 0 {
                    assert(item_models(*v, v.len() as nat) =~= Seq::<JsonModel>::empty());
                }
            }
            v.len() == 0
        },
        _ => false,
    };
    let absent = match actual {
        None => true,
        Some(Json::Null) => true,
        Some(_) => false,
    };
    if many && empty && absent {
        return true;
    }
    match actual {
        Some(v) => managed_equal(expected, v),
        None => false,
    }
}

/// Whether the managed part of a remote value is as expected.
pub fn managed_equal(expected: &Json, actual: &Json) -> (r: bool)
    ensures
        r == managed(expected@, actual@),
    decreases *expected, 0nat,
{
    match expected {
        Json::Object(x) => match actual {
            Json::Object(y) => {
                let ghost mx = member_models(*x, x.len() as nat);
                let ghost my = member_models(*y, y.len() as nat);
                proof {
                    lemma_members(*x, x.len() as nat);
                    lemma_members(*y, y.len() as nat);
                }
                let mut i: usize = 0;
                while i < x.len()
                    invariant
                        i <= x.len(),
                        *expected == Json::Object(*x),
                        *actual == Json::Object(*y),
                        mx == member_models(*x, x.len() as nat),
                        my == member_models(*y, y.len() as nat),
                        mx.len() == x.len(),
                        forall|j: int|
                            0 <= j < x.len() ==> #[trigger] mx[j] == (x[j].key@, json_model(x[j].value)),
                        expected@ == JsonModel::Object(mx),
                        actual@ == JsonModel::Object(my),
                        members_managed(mx, i as nat, my),
                    decreases x.len() - i,
                {
                    assert(*x == expected->Object_0);
                    assert(decreases_to!(*expected => expected->Object_0));
                    assert(decreases_to!(*x => x[i as int]));
                    assert(decreases_to!(x[i as int] => x[i as int].value));
                    assert(mx[i as int] == (x[i as int].key@, json_model(x[i as int].value)));
                    let found = actual.get(x[i].key.as_str());
                    if !managed_member_equal(x[i].key.as_str(), &x[i].value, found) {
                        proof {
                            assert(!members_managed(mx, (i + 1) as nat, my));
                            lemma_members_differ(mx, (i + 1) as nat, my);
                        }
                        return false;
                    }
                    assert(members_managed(mx, (i + 1) as nat, my));
                    i = i + 1;
                }
                true
            },
            _ => false,
        },
        Json::Array(x) => match actual {
            Json::Array(y) => {
                let ghost mx = item_models(*x, x.len() as nat);
                let ghost my = item_models(*y, y.len() as nat);
                proof {
                    lemma_items(*x, x.len() as nat);
                    lemma_items(*y, y.len() as nat);
                }
                if x.len() != y.len() {
                    return false;
                }
                let mut i: usize = 0;
                while i < x.len()
                    invariant
                        i <= x.len(),
                        x.len() == y.len(),
                        *expected == Json::Array(*x),
                        *actual == Json::Array(*y),
                        mx == item_models(*x, x.len() as nat),
                        my == item_models(*y, y.len() as nat),
                        mx.len() == x.len(),
                        my.len() == y.len(),
                        forall|j: int| 0 <= j < x.len() ==> #[trigger] mx[j] == json_model(x[j]),
                        forall|j: int| 0 <= j < y.len() ==> #[trigger] my[j] == json_model(y[j]),
                        expected@ == JsonModel::Array(mx),
                        actual@ == JsonModel::Array(my),
                        items_managed(mx, i as nat, my),
                    decreases x.len() - i,
                {
                    assert(*x == expected->Array_0);
                    assert(decreases_to!(*expected => expected->Array_0));
                    assert(decreases_to!(*x => x[i as int]));
                    assert(mx[i as int] == json_model(x[i as int]));
                    let mut found: bool = false;
                    let mut j: usize = 0;
                    while j < y.len() && !found
                        invariant
                            j <= y.len(),
                            i < x.len(),
                            decreases_to!(*expected => x[i as int]),
                            my.len() == y.len(),
                            forall|k: int| 0 <= k < y.len() ==> #[trigger] my[k] == json_model(y[k]),
                            mx[i as int] == json_model(x[i as int]),
                            found == some_managed(mx[i as int], my, j as nat),
                        decreases y.len() - j,
                    {
                        assert(my[j as int] == json_model(y[j as int]));
                        found = managed_equal(&x[i], &y[j]);
                        j = j + 1;
                        assert(found == some_managed(mx[i as int], my, j as nat));
                    }
                    if !found {
                        proof {
                            assert(!items_managed(mx, (i + 1) as nat, my));
                            lemma_items_differ(mx, (i + 1) as nat, my);
                        }
                        return false;
                    }
                    proof {
                        lemma_some_found(mx[i as int], my, j as nat);
                    }
                    assert(items_managed(mx, (i + 1) as nat, my));
                    i = i + 1;
                }
                true
            },
            _ => false,
        },
        _ => same_scalar(expected, actual),
    }
}

/// No object in the value holds a key twice.
pub open spec fn keys_once(a: JsonModel) -> bool
    decreases a, 0nat,
{
    match a {
        JsonModel::Object(x) => members_once(x, x.len()),
        JsonModel::Array(x) => items_once(x, x.len()),
        _ => true,
    }
}

pub open spec fn members_once(x: Seq<(Seq<char>, JsonModel)>, n: nat) -> bool
    decreases x, n,
{
    n == 0 || n > x.len() || (members_once(x, (n - 1) as nat) && keys_once(x[n - 1].1) && lookup(
        x,
        x[n - 1].0,
    ) == Some(x[n - 1].1))
}

pub open spec fn items_once(x: Seq<JsonModel>, n: nat) -> bool
    decreases x, n,
{
    n == 0 || n > x.len() || (items_once(x, (n - 1) as nat) && keys_once(x[n - 1]))
}

/// What a target holds exactly as expected needs no update.
pub proof fn values_manage_themselves(a: JsonModel)
    requires
        keys_once(a),
    ensures
        managed(a, a),
    decreases a, 0nat,
{
    match a {
        JsonModel::Object(x) => {
            lemma_members_themselves(x, x.len());
        },
        JsonModel::Array(x) => {
            lemma_items_themselves(x, x.len());
        },
        _ => {},
    }
}

proof fn lemma_members_themselves(x: Seq<(Seq<char>, JsonModel)>, n: nat)
    requires
        n <= x.len(),
        members_once(x, n),
    ensures
        members_managed(x, n, x),
    decreases x, n,
{
    if n > 0 {
        lemma_members_themselves(x, (n - 1) as nat);
        values_manage_themselves(x[n - 1].1);
        assert(member_managed(x[n - 1].0, x[n - 1].1, lookup(x, x[n - 1].0)));
    }
}

proof fn lemma_items_themselves(x: Seq<JsonModel>, n: nat)
    requires
        n <= x.len(),
        items_once(x, n),
    ensures
        items_managed(x, n, x),
    decreases x, n,
{
    if n > 0 {
        lemma_items_themselves(x, (n - 1) as nat);
        values_manage_themselves(x[n - 1]);
        assert(some_managed(x[n - 1], x, n));
        lemma_some_found(x[n - 1], x, n);
    }
}

impl Core {
    /// Lists the configured targets that the caller may see: those whose names are in `readable`.
    pub fn provisioning_targets(&self, targets: &Table<Target>, readable: &Names) -> (r: Vec<Target>)
        ensures
            views(r@) == rows_in(targets@, in_order(targets@.dom()), readable@),
    {
        targets.rows_among(readable)
    }
}

/// A finished job shows how far it came, though what it delivered is dropped.
pub proof fn finished_jobs_show_their_size(j: JobModel)
    ensures
        job_shown(compacted(j)) == job_shown(j),
        (job_shown(j)).id == j.plan.id && (job_shown(j)).target == j.plan.target
            && (job_shown(j)).revision == j.plan.revision && (job_shown(j)).processed == j.cursor
            && (job_shown(j)).completed == j.completed && (job_shown(j)).stale == j.stale
            && (job_shown(j)).error == j.error && (job_shown(j)).attempts == j.attempts,
        j.completed || j.stale ==> compacted(j).plan.resources.len() == 0,
        !j.completed && !j.stale ==> compacted(j) == j,
{
}

/// A target is named by a server's address, exports one to 64 groups, and has exactly one kind of
/// credential.
pub proof fn targets_have_one_kind_of_credential(t: TargetModel, rules: RulesModel)
    requires
        scim_target_check(t, rules) is Ok,
    ensures
        rules.server_urls.contains(t.url),
        t.groups.len() >= 1 && t.groups.len() <= 64,
        t.token_file is Some <==> t.oauth is None,
        t.oauth matches Some(o) ==> rules.server_urls.contains(o.token_url) && o.client_id.len() > 0 && (
        o.grant == OauthGrant::ClientCredentials ==> o.client_secret_file is Some
            && o.refresh_token_file is None) && (o.grant == OauthGrant::RefreshToken
            ==> o.refresh_token_file is Some),
{
}

/// A target that asks for its own tokens names where and as whom, and has the file that its way of
/// asking needs.
pub proof fn token_sources_have_their_files(o: OauthModel, rules: RulesModel)
    ensures
        oauth_check(o, rules) is Ok <==> {
            &&& rules.server_urls.contains(o.token_url)
            &&& 1 <= o.client_id.len()
            &&& byte_count(o.client_id) <= 256
            &&& all_graphic(o.client_id)
            &&& parameter_check(o.scope, 1024, "scope"@) is Ok
            &&& parameter_check(o.audience, 512, "audience"@) is Ok
            &&& o.grant == OauthGrant::ClientCredentials ==> o.client_secret_file is Some
                && o.refresh_token_file is None
            &&& o.grant == OauthGrant::RefreshToken ==> o.refresh_token_file is Some
        },
{
}

/// What is asked of a token source is left out, or is a short text without control characters.
pub proof fn token_parameters_are_bounded(v: Seq<char>, limit: nat, name: Seq<char>)
    ensures
        parameter_check(None, limit, name) is Ok,
        parameter_check(Some(v), limit, name) is Ok <==> 0 < v.len() && byte_count(v) <= limit && !some_control(v),
{
}

} // verus!
