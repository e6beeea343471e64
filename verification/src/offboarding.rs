//! Scheduled local offboarding of users.
//!
//! The time of execution is an absolute instant. The time zone is a label that the operator typed:
//! it is checked for its form only, kept for the audit, and never applied to the instant. Texts
//! that leave out their offset are rejected. No provisioning target is called: remote accounts are
//! disabled by a reviewed plan.
pub mod worker;

use crate::engine::{Core, Principal, PrincipalModel, audit, audited, drawn, extended, next_id};
use crate::error::{Error, Failure, agrees, agrees_with, copy_error, fails, opt_failure};
use crate::json::{Json, JsonModel};
use crate::model::{User, UserModel};
use crate::mtls::{named_user, user_by_name};
use crate::names::{Names, in_order, lemma_lt_irreflexive, lemma_lt_total, lemma_lt_transitive};
use crate::outside::{format_instant, instant_text, parse_instant, rfc3339_seconds};
use crate::rules::{Rules, RulesModel, name_check};
use crate::store::{Tx, TxModel};
use crate::table::{Row, Table, views};
use crate::text::{all_graphic, ascii_alphanumeric, before, byte_count, byte_len, chars_of, concat3, has_control, is_alphanumeric, is_digit, is_graphic, parts, same, some_control, split, text_lt, texts};
use vstd::prelude::*;
use vstd::string::*;

verus! {

pub const MAX_ATTEMPTS: u32 = 5;

pub const LEASE_SECONDS: u64 = 60;

pub const MAX_SCHEDULE_SECONDS: u64 = 31622400;

pub const TIME_ERROR: &'static str = "execute_at must be an absolute RFC3339 timestamp with a numeric offset (or Z) or a JSON integer number of unix seconds. Naive local times are rejected. The timezone label is stored for audit and is not used to interpret the instant";

pub const ZONE_ERROR: &'static str = "timezone must match [A-Za-z0-9_+-]{1,64}(/[A-Za-z0-9_+-]{1,64}){0,2}. It is an audit label, not a zone-database lookup; UTC and numeric offsets are not applied to the instant";

pub const WINDOW_ERROR: &'static str = "execute_at must be after the current time and no later than 366 days ahead. The instant is absolute UTC and is not shifted by the timezone label";

#[derive(Clone, Copy, PartialEq, Eq, Structural, Debug)]
pub enum Status {
    Scheduled,
    Running,
    Done,
    Cancelled,
    Failed,
}

/// What the worker does once it holds the lease, before anything is changed.
#[derive(Clone, Copy, PartialEq, Eq, Structural, Debug)]
pub enum BeforeCommit {
    /// Read the job again and revoke, unless cancellation has won.
    Proceed,
    /// Record a failure that can be retried, without changing the user.
    RetryableFailure,
}

/// When to execute.
pub enum ExecuteAt {
    Unix(u64),
    Rfc3339(String),
}

/// What an [`ExecuteAt`] holds.
pub enum ExecuteAtModel {
    Unix(u64),
    Rfc3339(Seq<char>),
}

impl View for ExecuteAt {
    type V = ExecuteAtModel;

    open spec fn view(&self) -> ExecuteAtModel {
        match *self {
            ExecuteAt::Unix(n) => ExecuteAtModel::Unix(n),
            ExecuteAt::Rfc3339(t) => ExecuteAtModel::Rfc3339(t@),
        }
    }
}

impl Row for ExecuteAt {
    fn dup(&self) -> (r: Self) {
        match self {
            ExecuteAt::Unix(n) => ExecuteAt::Unix(*n),
            ExecuteAt::Rfc3339(t) => ExecuteAt::Rfc3339(t.clone()),
        }
    }
}

pub struct ScheduleRequest {
    pub username: String,
    pub execute_at: ExecuteAt,
    pub timezone: String,
}

/// What a [`ScheduleRequest`] holds.
pub struct ScheduleRequestModel {
    pub username: Seq<char>,
    pub execute_at: ExecuteAtModel,
    pub timezone: Seq<char>,
}

impl View for ScheduleRequest {
    type V = ScheduleRequestModel;

    open spec fn view(&self) -> ScheduleRequestModel {
        ScheduleRequestModel {
            username: self.username@,
            execute_at: self.execute_at@,
            timezone: self.timezone@,
        }
    }
}

impl Row for ScheduleRequest {
    fn dup(&self) -> (r: Self) {
        ScheduleRequest {
            username: self.username.clone(),
            execute_at: self.execute_at.dup(),
            timezone: self.timezone.clone(),
        }
    }
}

pub struct RescheduleRequest {
    pub execute_at: ExecuteAt,
    pub timezone: String,
}

/// What a [`RescheduleRequest`] holds.
pub struct RescheduleRequestModel {
    pub execute_at: ExecuteAtModel,
    pub timezone: Seq<char>,
}

impl View for RescheduleRequest {
    type V = RescheduleRequestModel;

    open spec fn view(&self) -> RescheduleRequestModel {
        RescheduleRequestModel {
            execute_at: self.execute_at@,
            timezone: self.timezone@,
        }
    }
}

impl Row for RescheduleRequest {
    fn dup(&self) -> (r: Self) {
        RescheduleRequest {
            execute_at: self.execute_at.dup(),
            timezone: self.timezone.clone(),
        }
    }
}

/// An offboarding.
pub struct Job {
    pub id: String,
    pub username: String,
    pub user_id: String,
    pub execute_at: u64,
    pub timezone: String,
    pub status: Status,
    pub attempts: u32,
    pub lease_owner: Option<String>,
    pub lease_until: u64,
    pub last_error: Option<String>,
    pub created_by: String,
    pub actions: Vec<String>,
    pub cancel_requested: bool,
    pub next_attempt: u64,
    pub result: Option<Json>,
    pub created_at: u64,
}

/// What a [`Job`] holds.
pub struct JobModel {
    pub id: Seq<char>,
    pub username: Seq<char>,
    pub user_id: Seq<char>,
    pub execute_at: u64,
    pub timezone: Seq<char>,
    pub status: Status,
    pub attempts: u32,
    pub lease_owner: Option<Seq<char>>,
    pub lease_until: u64,
    pub last_error: Option<Seq<char>>,
    pub created_by: Seq<char>,
    pub actions: Seq<Seq<char>>,
    pub cancel_requested: bool,
    pub next_attempt: u64,
    pub result: Option<JsonModel>,
    pub created_at: u64,
}

impl View for Job {
    type V = JobModel;

    open spec fn view(&self) -> JobModel {
        JobModel {
            id: self.id@,
            username: self.username@,
            user_id: self.user_id@,
            execute_at: self.execute_at,
            timezone: self.timezone@,
            status: self.status,
            attempts: self.attempts,
            lease_owner: crate::text::opt_text(self.lease_owner),
            lease_until: self.lease_until,
            last_error: crate::text::opt_text(self.last_error),
            created_by: self.created_by@,
            actions: crate::text::texts(self.actions@),
            cancel_requested: self.cancel_requested,
            next_attempt: self.next_attempt,
            result: crate::table::opt_view(self.result),
            created_at: self.created_at,
        }
    }
}

impl Row for Job {
    fn dup(&self) -> (r: Self) {
        Job {
            id: self.id.clone(),
            username: self.username.clone(),
            user_id: self.user_id.clone(),
            execute_at: self.execute_at,
            timezone: self.timezone.clone(),
            status: self.status,
            attempts: self.attempts,
            lease_owner: crate::text::copy_opt(&self.lease_owner),
            lease_until: self.lease_until,
            last_error: crate::text::copy_opt(&self.last_error),
            created_by: self.created_by.clone(),
            actions: crate::text::copy_list(&self.actions),
            cancel_requested: self.cancel_requested,
            next_attempt: self.next_attempt,
            result: crate::table::dup_opt(&self.result),
            created_at: self.created_at,
        }
    }
}

pub open spec fn is_active(j: JobModel) -> bool {
    j.status == Status::Scheduled || j.status == Status::Running
}

impl Job {
    pub fn active(&self) -> (r: bool)
        ensures
            r == is_active(self@),
    {
        match self.status {
            Status::Scheduled => true,
            Status::Running => true,
            _ => false,
        }
    }
}

pub open spec fn zone_char(c: char) -> bool {
    ascii_alphanumeric(c) || c == '_' || c == '+' || c == '-'
}

/// One to 64 letters, digits and signs.
pub open spec fn zone_part(p: Seq<char>) -> bool {
    1 <= p.len() <= 64 && forall|i: int| 0 <= i < p.len() ==> zone_char(#[trigger] p[i])
}

/// One to three parts between slashes.
pub open spec fn zone_label(s: Seq<char>) -> bool {
    let v = parts(s, '/');
    1 <= v.len() <= 3 && forall|i: int| 0 <= i < v.len() ==> zone_part(#[trigger] v[i])
}

fn is_zone_part(p: &str) -> (r: bool)
    ensures
        r == zone_part(p@),
{
    let v = chars_of(p);
    if v.len() == 0 || v.len() > 64 {
        return false;
    }
    let mut i: usize = 0;
    while i < v.len()
        invariant
            i <= v.len(),
            v@ == p@,
            forall|j: int| 0 <= j < i ==> zone_char(#[trigger] p@[j]),
        decreases v.len() - i,
    {
        let c = v[i];
        if !(is_alphanumeric(c) || c == '_' || c == '+' || c == '-') {
            assert(!zone_char(p@[i as int]));
            return false;
        }
        i = i + 1;
    }
    true
}

/// Whether a time zone label has the accepted form.
#[verifier::loop_isolation(false)]
pub fn valid_timezone_label(value: &str) -> (r: bool)
    ensures
        r == zone_label(value@),
{
    let v = split(value, '/');
    let ghost all = parts(value@, '/');
    assert(all.len() == v.len());
    if v.len() > 3 {
        return false;
    }
    let mut i: usize = 0;
    while i < v.len()
        invariant
            i <= v.len(),
            forall|j: int| 0 <= j < i ==> zone_part(#[trigger] all[j]),
        decreases v.len() - i,
    {
        assert(all[i as int] == v[i as int]@);
        if !is_zone_part(v[i].as_str()) {
            return false;
        }
        i = i + 1;
    }
    true
}

/// The text ends with `Z` or with a numeric offset.
pub open spec fn explicit_offset(s: Seq<char>) -> bool {
    let n = s.len() as int;
    (n > 0 && (s[n - 1] == 'Z' || s[n - 1] == 'z')) || (n >= 6 && (s[n - 6] == '+' || s[n - 6] == '-')
        && is_digit(s[n - 5]) && is_digit(s[n - 4]) && s[n - 3] == ':' && is_digit(s[n - 2])
        && is_digit(s[n - 1]))
}

fn has_explicit_offset(text: &str) -> (r: bool)
    ensures
        r == explicit_offset(text@),
{
    let v = chars_of(text);
    let n: usize = v.len();
    if n > 0 && (v[n - 1] == 'Z' || v[n - 1] == 'z') {
        return true;
    }
    if n < 6 {
        return false;
    }
    (v[n - 6] == '+' || v[n - 6] == '-') && ('0' <= v[n - 5] && v[n - 5] <= '9') && ('0' <= v[n - 4]
        && v[n - 4] <= '9') && v[n - 3] == ':' && ('0' <= v[n - 2] && v[n - 2] <= '9') && ('0' <= v[n
        - 1] && v[n - 1] <= '9')
}

/// The instant, in seconds since 1970.
pub open spec fn instant_of(e: ExecuteAtModel) -> Result<u64, Failure> {
    match e {
        ExecuteAtModel::Unix(n) => Ok(n),
        ExecuteAtModel::Rfc3339(t) => if t.len() == 0 || byte_count(t) > 64 || some_control(t) {
            Err(Failure::Bad(TIME_ERROR@))
        } else {
            match rfc3339_seconds(t) {
                None => Err(Failure::Bad(TIME_ERROR@)),
                Some(n) => if !explicit_offset(t) || n < 0 {
                    Err(Failure::Bad(TIME_ERROR@))
                } else {
                    Ok(n as u64)
                },
            }
        },
    }
}

pub fn absolute_unix(execute_at: &ExecuteAt) -> (r: Result<u64, Error>)
    ensures
        match instant_of(execute_at@) {
            Ok(n) => r is Ok && r->Ok_0 == n,
            Err(f) => fails(r, f),
        },
{
    match execute_at {
        ExecuteAt::Unix(n) => Ok(*n),
        ExecuteAt::Rfc3339(t) => {
            let s = t.as_str();
            if s.is_empty() || byte_len(s) > 64 || has_control(s) {
                return Err(Error::bad(TIME_ERROR));
            }
            match parse_instant(s) {
                None => Err(Error::bad(TIME_ERROR)),
                Some(n) => read_instant(s, n),
            }
        },
    }
}

/// The instant `seconds` that the text writes, if it says its offset.
pub fn read_instant(text: &str, seconds: i64) -> (r: Result<u64, Error>)
    ensures
        match r {
            Ok(n) => explicit_offset(text@) && seconds >= 0 && n == seconds,
            Err(e) => (!explicit_offset(text@) || seconds < 0) && e@ == Failure::Bad(TIME_ERROR@),
        },
{
    if !has_explicit_offset(text) || seconds < 0 {
        return Err(Error::bad(TIME_ERROR));
    }
    Ok(seconds as u64)
}

/// The last second of the year 9999.
pub const LAST_SECOND: u64 = 253402300799;

/// The RFC 3339 text of an instant.
pub fn format_rfc3339(unix: u64) -> (r: Result<String, Error>)
    ensures
        unix > LAST_SECOND ==> fails(r, Failure::Bad(TIME_ERROR@)),
        unix <= LAST_SECOND ==> r is Ok && Some(r->Ok_0@) == instant_text(unix as i64, 0),
{
    if unix > LAST_SECOND {
        return Err(Error::bad(TIME_ERROR));
    }
    match format_instant(unix as i64, 0) {
        Some(t) => Ok(t),
        None => Err(Error::internal("Formatting failed")),
    }
}

/// The RFC 3339 text of an instant at an offset of whole hours.
pub fn format_rfc3339_at_offset(unix: u64, hours: i8) -> (r: Result<String, Error>)
    requires
        unix <= LAST_SECOND && -25 <= hours <= 25 ==> unix + hours * 3600 <= LAST_SECOND,
    ensures
        match r {
            Ok(t) => -23 <= hours <= 23 && unix <= LAST_SECOND && Some(t@) == instant_text(
                unix as i64,
                hours,
            ),
            Err(e) => if !(-25 <= hours <= 25) {
                e@ == Failure::Bad("timezone offset is outside RFC3339"@)
            } else if unix > LAST_SECOND {
                e@ == Failure::Bad(TIME_ERROR@)
            } else {
                !(-23 <= hours <= 23) && e@ == Failure::Internal("Formatting failed"@)
            },
        },
{
    if hours < -25 || hours > 25 {
        return Err(Error::bad("timezone offset is outside RFC3339"));
    }
    if unix > LAST_SECOND {
        return Err(Error::bad(TIME_ERROR));
    }
    match format_instant(unix as i64, hours) {
        Some(t) => Ok(t),
        None => Err(Error::internal("Formatting failed")),
    }
}

/// The instant lies ahead, within 366 days.
pub open spec fn window_check(execute_at: u64, at: u64) -> Result<(), Failure> {
    if execute_at > at && execute_at <= extended(at, MAX_SCHEDULE_SECONDS) {
        Ok(())
    } else {
        Err(Failure::Bad(WINDOW_ERROR@))
    }
}

pub fn within_window(execute_at: u64, at: u64) -> (r: Result<(), Error>)
    ensures
        agrees(r, window_check(execute_at, at)),
{
    if execute_at > at && execute_at <= at.saturating_add(MAX_SCHEDULE_SECONDS) {
        Ok(())
    } else {
        Err(Error::bad(WINDOW_ERROR))
    }
}

/// A worker's name: up to 128 visible ASCII characters.
pub open spec fn owner_check(owner: Seq<char>) -> Result<(), Failure> {
    if owner.len() == 0 || byte_count(owner) > 128 || !all_graphic(owner) {
        Err(Failure::Bad("Invalid offboarding worker id"@))
    } else {
        Ok(())
    }
}

pub fn validate_owner(owner: &str) -> (r: Result<(), Error>)
    ensures
        agrees(r, owner_check(owner@)),
{
    if owner.is_empty() || byte_len(owner) > 128 || !is_graphic(owner) {
        return Err(Error::bad("Invalid offboarding worker id"));
    }
    Ok(())
}

pub open spec fn denied(message: Seq<char>) -> Failure {
    Failure::Reply(403, "access_denied"@, message)
}

pub fn deny(message: &str) -> (e: Error)
    ensures
        e@ == denied(message@),
{
    Error::reply(403, "access_denied", message)
}

/// Whether the user may be offboarded by this actor. `remaining` is why the rule on the last
/// administrator forbids it, if it does.
pub open spec fn guard_check(
    actor: PrincipalModel,
    user: UserModel,
    remaining: Option<Failure>,
) -> Result<(), Failure> {
    if actor.agent && user.admin {
        Err(denied("Agents cannot offboard administrators"@))
    } else if remaining is Some {
        Err(remaining->0)
    } else {
        Ok(())
    }
}

fn guard_schedule(actor: &Principal, user: &User, remaining: &Option<Error>) -> (r: Result<(), Error>)
    ensures
        agrees(r, guard_check(actor@, user@, opt_failure(*remaining))),
{
    if actor.agent && user.admin {
        return Err(deny("Agents cannot offboard administrators"));
    }
    match remaining {
        Some(e) => Err(copy_error(e)),
        None => Ok(()),
    }
}

pub open spec fn local_actions() -> Seq<Seq<char>> {
    seq!["user.disable"@, "session.revoke"@, "grant.revoke"@, "downstream.local-only"@]
}

fn list_actions() -> (r: Vec<String>)
    ensures
        texts(r@) == local_actions(),
{
    let mut v: Vec<String> = Vec::new();
    v.push("user.disable".to_owned());
    v.push("session.revoke".to_owned());
    v.push("grant.revoke".to_owned());
    v.push("downstream.local-only".to_owned());
    assert(texts(v@) =~= local_actions());
    v
}

pub open spec fn job_target(j: JobModel) -> Seq<char> {
    j.id + "/"@ + j.username
}

pub fn audit_target(j: &Job) -> (r: String)
    ensures
        r@ == job_target(j@),
{
    concat3(j.id.as_str(), "/", j.username.as_str())
}

/// The user has an offboarding that is not over.
pub open spec fn being_offboarded(m: Map<Seq<char>, JobModel>, user_id: Seq<char>) -> bool {
    exists|k: Seq<char>| #[trigger] m.dom().contains(k) && m[k].user_id == user_id && is_active(m[k])
}

fn has_active(jobs: &Table<Job>, user_id: &str) -> (r: bool)
    ensures
        r == being_offboarded(jobs@, user_id@),
{
    jobs.listing();
    let n: usize = jobs.len();
    let mut i: usize = 0;
    while i < n
        invariant
            i <= n,
            n == jobs.entries().len(),
            forall|k: int|
                0 <= k < i ==> (#[trigger] jobs.entries()[k]).1.user_id != user_id@ || !is_active(
                    jobs.entries()[k].1,
                ),
        decreases n - i,
    {
        jobs.listing();
        let job = jobs.row_at(i);
        if same(job.user_id.as_str(), user_id) && job.active() {
            proof {
                let e = jobs.entries()[i as int];
                assert(jobs@.dom().contains(e.0));
            }
            return true;
        }
        i = i + 1;
    }
    jobs.listing();
    proof {
        if being_offboarded(jobs@, user_id@) {
            let k = choose|k: Seq<char>| #[trigger]
                jobs@.dom().contains(k) && jobs@[k].user_id == user_id@ && is_active(jobs@[k]);
            let a = choose|a: int|
                0 <= a < jobs.entries().len() && (#[trigger] jobs.entries()[a]).0 == k;
            assert(jobs.entries()[a].1 == jobs@[k]);
        }
    }
    false
}

/// The store with the job as it is now.
pub open spec fn stored(t: TxModel, j: JobModel) -> TxModel {
    TxModel { offboard_jobs: t.offboard_jobs.insert(j.id, j), ..t }
}

/// What scheduling does.
pub open spec fn scheduled(
    t: TxModel,
    actor: PrincipalModel,
    input: ScheduleRequestModel,
    remaining: Option<Failure>,
    rules: RulesModel,
) -> (TxModel, Result<JobModel, Failure>) {
    match name_check(rules, input.username) {
        Err(f) => (t, Err(f)),
        Ok(_) => if !zone_label(input.timezone) {
            (t, Err(Failure::Bad(ZONE_ERROR@)))
        } else {
            match instant_of(input.execute_at) {
                Err(f) => (t, Err(f)),
                Ok(execute_at) => match window_check(execute_at, t.now) {
                    Err(f) => (t, Err(f)),
                    Ok(_) => match named_user(t, input.username) {
                        None => (t, Err(Failure::Missing("User not found"@))),
                        Some(user) => match guard_check(actor, user, remaining) {
                            Err(f) => (t, Err(f)),
                            Ok(_) => if being_offboarded(t.offboard_jobs, user.id) {
                                (
                                    t,
                                    Err(
                                        Failure::Conflict(
                                            "User already has an active offboarding job"@,
                                        ),
                                    ),
                                )
                            } else {
                                let j = JobModel {
                                    id: next_id(t),
                                    username: user.username,
                                    user_id: user.id,
                                    execute_at,
                                    timezone: input.timezone,
                                    status: Status::Scheduled,
                                    attempts: 0,
                                    lease_owner: None,
                                    lease_until: 0,
                                    last_error: None,
                                    created_by: actor.id,
                                    actions: local_actions(),
                                    cancel_requested: false,
                                    next_attempt: execute_at,
                                    result: None,
                                    created_at: t.now,
                                };
                                (
                                    audited(
                                        stored(drawn(t), j),
                                        actor.id,
                                        "offboard.schedule"@,
                                        job_target(j),
                                    ),
                                    Ok(j),
                                )
                            },
                        },
                    },
                },
            }
        },
    }
}

/// What rescheduling does.
pub open spec fn rescheduled(
    t: TxModel,
    actor: PrincipalModel,
    id: Seq<char>,
    input: RescheduleRequestModel,
    remaining: Option<Failure>,
) -> (TxModel, Result<JobModel, Failure>) {
    if !zone_label(input.timezone) {
        (t, Err(Failure::Bad(ZONE_ERROR@)))
    } else {
        match instant_of(input.execute_at) {
            Err(f) => (t, Err(f)),
            Ok(execute_at) => match window_check(execute_at, t.now) {
                Err(f) => (t, Err(f)),
                Ok(_) => if !t.offboard_jobs.dom().contains(id) {
                    (t, Err(Failure::Missing("Offboarding job not found"@)))
                } else {
                    let j = t.offboard_jobs[id];
                    match named_user(t, j.username) {
                        None => (t, Err(Failure::Missing("User not found"@))),
                        Some(user) => if user.id != j.user_id {
                            (t, Err(Failure::Conflict("Offboarding user identity changed"@)))
                        } else {
                            match guard_check(actor, user, remaining) {
                                Err(f) => (t, Err(f)),
                                Ok(_) => if j.status != Status::Scheduled || j.cancel_requested {
                                    (
                                        t,
                                        Err(
                                            Failure::Conflict(
                                                "Only a scheduled offboarding job can be rescheduled"@,
                                            ),
                                        ),
                                    )
                                } else {
                                    let next = JobModel {
                                        execute_at,
                                        timezone: input.timezone,
                                        next_attempt: execute_at,
                                        ..j
                                    };
                                    (
                                        audited(
                                            stored(t, next),
                                            actor.id,
                                            "offboard.reschedule"@,
                                            job_target(next),
                                        ),
                                        Ok(next),
                                    )
                                },
                            }
                        },
                    }
                },
            },
        }
    }
}

/// What cancelling does. A running job is only flagged: its worker reads the flag before it
/// revokes.
pub open spec fn cancelled(t: TxModel, actor: PrincipalModel, id: Seq<char>) -> (
    TxModel,
    Result<JobModel, Failure>,
) {
    if !t.offboard_jobs.dom().contains(id) {
        (t, Err(Failure::Missing("Offboarding job not found"@)))
    } else {
        let j = t.offboard_jobs[id];
        match j.status {
            Status::Cancelled => (t, Ok(j)),
            Status::Done => (
                t,
                Err(Failure::Conflict("Offboarding job can no longer be cancelled"@)),
            ),
            Status::Failed => (
                t,
                Err(Failure::Conflict("Offboarding job can no longer be cancelled"@)),
            ),
            Status::Scheduled => {
                let next = JobModel {
                    status: Status::Cancelled,
                    cancel_requested: false,
                    lease_owner: None,
                    lease_until: 0,
                    next_attempt: t.now,
                    ..j
                };
                (
                    audited(stored(t, next), actor.id, "offboard.cancel"@, job_target(next)),
                    Ok(next),
                )
            },
            Status::Running => if j.cancel_requested {
                (t, Ok(j))
            } else {
                let next = JobModel { cancel_requested: true, ..j };
                (
                    audited(stored(t, next), actor.id, "offboard.cancel"@, job_target(next)),
                    Ok(next),
                )
            },
        }
    }
}

pub fn store_job(tx: &mut Tx, j: &Job)
    ensures
        final(tx)@ == stored(old(tx)@, j@),
{
    tx.offboard_jobs.put(j.id.as_str(), j.dup());
}

impl Core {
    pub fn offboard_schedule(
        &self,
        tx: &mut Tx,
        actor: &Principal,
        input: &ScheduleRequest,
        remaining: &Option<Error>,
        rules: &Rules,
    ) -> (r: Result<Job, Error>)
        ensures
            ({
                let out = scheduled(
                    old(tx)@,
                    actor@,
                    input@,
                    opt_failure(*remaining),
                    rules@,
                );
                final(tx)@ == out.0 && agrees_with(r, out.1)
            }),
    {
        if let Err(e) = rules.check_name(input.username.as_str()) {
            return Err(e);
        }
        if !valid_timezone_label(input.timezone.as_str()) {
            return Err(Error::bad(ZONE_ERROR));
        }
        let execute_at = match absolute_unix(&input.execute_at) {
            Err(e) => return Err(e),
            Ok(n) => n,
        };
        if let Err(e) = within_window(execute_at, tx.now) {
            return Err(e);
        }
        let user = match user_by_name(tx, input.username.as_str()) {
            Err(e) => return Err(e),
            Ok(u) => u,
        };
        if let Err(e) = guard_schedule(actor, &user, remaining) {
            return Err(e);
        }
        if has_active(&tx.offboard_jobs, user.id.as_str()) {
            return Err(Error::conflict("User already has an active offboarding job"));
        }
        let job = Job {
            id: tx.id(),
            username: user.username,
            user_id: user.id,
            execute_at,
            timezone: input.timezone.clone(),
            status: Status::Scheduled,
            attempts: 0,
            lease_owner: None,
            lease_until: 0,
            last_error: None,
            created_by: actor.id.clone(),
            actions: list_actions(),
            cancel_requested: false,
            next_attempt: execute_at,
            result: None,
            created_at: tx.now,
        };
        store_job(tx, &job);
        let target = audit_target(&job);
        audit(tx, actor.id.as_str(), "offboard.schedule", target.as_str());
        Ok(job)
    }

    pub fn offboard_reschedule(
        &self,
        tx: &mut Tx,
        actor: &Principal,
        id: &str,
        input: &RescheduleRequest,
        remaining: &Option<Error>,
    ) -> (r: Result<Job, Error>)
        ensures
            ({
                let out = rescheduled(old(tx)@, actor@, id@, input@, opt_failure(*remaining));
                final(tx)@ == out.0 && agrees_with(r, out.1)
            }),
    {
        if !valid_timezone_label(input.timezone.as_str()) {
            return Err(Error::bad(ZONE_ERROR));
        }
        let execute_at = match absolute_unix(&input.execute_at) {
            Err(e) => return Err(e),
            Ok(n) => n,
        };
        if let Err(e) = within_window(execute_at, tx.now) {
            return Err(e);
        }
        let mut job = match tx.offboard_jobs.get(id) {
            None => return Err(Error::missing("Offboarding job not found")),
            Some(j) => j.dup(),
        };
        let user = match user_by_name(tx, job.username.as_str()) {
            Err(e) => return Err(e),
            Ok(u) => u,
        };
        if !same(user.id.as_str(), job.user_id.as_str()) {
            return Err(Error::conflict("Offboarding user identity changed"));
        }
        if let Err(e) = guard_schedule(actor, &user, remaining) {
            return Err(e);
        }
        let waiting = match job.status {
            Status::Scheduled => true,
            _ => false,
        };
        if !waiting || job.cancel_requested {
            return Err(Error::conflict("Only a scheduled offboarding job can be rescheduled"));
        }
        job.execute_at = execute_at;
        job.timezone = input.timezone.clone();
        job.next_attempt = execute_at;
        store_job(tx, &job);
        let target = audit_target(&job);
        audit(tx, actor.id.as_str(), "offboard.reschedule", target.as_str());
        Ok(job)
    }

    pub fn offboard_cancel(&self, tx: &mut Tx, actor: &Principal, id: &str) -> (r: Result<Job, Error>)
        ensures
            ({
                let out = cancelled(old(tx)@, actor@, id@);
                final(tx)@ == out.0 && agrees_with(r, out.1)
            }),
    {
        let mut job = match tx.offboard_jobs.get(id) {
            None => return Err(Error::missing("Offboarding job not found")),
            Some(j) => j.dup(),
        };
        match job.status {
            Status::Cancelled => Ok(job),
            Status::Done => Err(Error::conflict("Offboarding job can no longer be cancelled")),
            Status::Failed => Err(Error::conflict("Offboarding job can no longer be cancelled")),
            Status::Scheduled => {
                job.status = Status::Cancelled;
                job.cancel_requested = false;
                job.lease_owner = None;
                job.lease_until = 0;
                job.next_attempt = tx.now;
                store_job(tx, &job);
                let target = audit_target(&job);
                audit(tx, actor.id.as_str(), "offboard.cancel", target.as_str());
                Ok(job)
            },
            Status::Running => {
                if job.cancel_requested {
                    return Ok(job);
                }
                job.cancel_requested = true;
                store_job(tx, &job);
                let target = audit_target(&job);
                audit(tx, actor.id.as_str(), "offboard.cancel", target.as_str());
                Ok(job)
            },
        }
    }

    /// The job, where the caller may see its user. `visible` are the names of such users.
    pub fn offboard_get(&self, tx: &Tx, id: &str, visible: &Names) -> (r: Result<Job, Error>)
        ensures
            agrees_with(
                r,
                if !tx@.offboard_jobs.dom().contains(id@) {
                    Err(Failure::Missing("Offboarding job not found"@))
                } else if !visible@.contains(tx@.offboard_jobs[id@].username) {
                    Err(Failure::Forbidden)
                } else {
                    Ok(tx@.offboard_jobs[id@])
                },
            ),
    {
        match tx.offboard_jobs.get(id) {
            None => Err(Error::missing("Offboarding job not found")),
            Some(j) => {
                if visible.contains(j.username.as_str()) {
                    Ok(j.dup())
                } else {
                    Err(Error::Forbidden)
                }
            },
        }
    }
}

/// The jobs of these users, by their keys.
pub open spec fn visible_jobs(
    m: Map<Seq<char>, JobModel>,
    keys: Seq<Seq<char>>,
    visible: Set<Seq<char>>,
) -> Seq<JobModel>
    decreases keys.len(),
{
    if keys.len() == 0 {
        Seq::empty()
    } else {
        let rest = visible_jobs(m, keys.drop_last(), visible);
        if visible.contains(m[keys.last()].username) {
            inserted_by_time(rest, m[keys.last()])
        } else {
            rest
        }
    }
}

/// The earlier job comes first; of two at the same time, the one with the smaller id.
pub open spec fn comes_first(a: JobModel, b: JobModel) -> bool {
    a.execute_at < b.execute_at || (a.execute_at == b.execute_at && text_lt(a.id, b.id))
}

/// The jobs with `j` before the first one that comes after it.
pub open spec fn inserted_by_time(v: Seq<JobModel>, j: JobModel) -> Seq<JobModel>
    decreases v.len(),
{
    if v.len() > 0 && comes_first(j, v.last()) {
        inserted_by_time(v.drop_last(), j).push(v.last())
    } else {
        v.push(j)
    }
}

proof fn lemma_inserted(v: Seq<JobModel>, j: JobModel, i: int)
    requires
        0 <= i <= v.len(),
        forall|k: int| i <= k < v.len() ==> comes_first(j, #[trigger] v[k]),
        i > 0 ==> !comes_first(j, v[i - 1]),
    ensures
        inserted_by_time(v, j) == v.insert(i, j),
    decreases v.len(),
{
    if i < v.len() {
        assert(comes_first(j, v[v.len() - 1]));
        let w = v.drop_last();
        assert forall|k: int| i <= k < w.len() implies comes_first(j, #[trigger] w[k]) by {
            assert(w[k] == v[k]);
        }
        lemma_inserted(w, j, i);
        assert(inserted_by_time(v, j) =~= v.insert(i, j));
    } else {
        assert(inserted_by_time(v, j) =~= v.insert(i, j));
    }
}

/// No job comes before one that stands before it.
pub open spec fn in_time_order(v: Seq<JobModel>) -> bool {
    forall|a: int, b: int| 0 <= a < b < v.len() ==> !comes_first(#[trigger] v[b], #[trigger] v[a])
}

proof fn lemma_time_order(v: Seq<JobModel>, j: JobModel)
    requires
        in_time_order(v),
    ensures
        in_time_order(inserted_by_time(v, j)),
        forall|k: int|
            0 <= k < inserted_by_time(v, j).len() ==> (#[trigger] inserted_by_time(v, j)[k]) == j || v.contains(
                inserted_by_time(v, j)[k],
            ),
    decreases v.len(),
{
    if v.len() > 0 && comes_first(j, v.last()) {
        let w = v.drop_last();
        assert(in_time_order(w)) by {
            assert forall|a: int, b: int| 0 <= a < b < w.len() implies !comes_first(
                #[trigger] w[b],
                #[trigger] w[a],
            ) by {
                assert(w[a] == v[a] && w[b] == v[b]);
            }
        }
        lemma_time_order(w, j);
        let x = inserted_by_time(w, j);
        let all = inserted_by_time(v, j);
        assert forall|k: int| 0 <= k < all.len() implies (#[trigger] all[k]) == j || v.contains(all[k]) by {
            if k < x.len() {
                assert(all[k] == x[k]);
                if x[k] != j {
                    let m = w.index_of(x[k]);
                    assert(v[m] == x[k]);
                }
            } else {
                assert(all[k] == v[v.len() - 1]);
            }
        }
        assert forall|a: int, b: int| 0 <= a < b < all.len() implies !comes_first(
            #[trigger] all[b],
            #[trigger] all[a],
        ) by {
            if b == x.len() {
                assert(all[a] == x[a]);
                if x[a] == j {
                    lemma_first_asymmetric(j, v.last());
                } else {
                    let m = w.index_of(x[a]);
                    assert(w[m] == v[m]);
                    assert(!comes_first(v[v.len() - 1], v[m]));
                }
            } else {
                assert(all[a] == x[a] && all[b] == x[b]);
            }
        }
    } else {
        let all = v.push(j);
        assert forall|k: int| 0 <= k < all.len() implies (#[trigger] all[k]) == j || v.contains(all[k]) by {
            if k < v.len() {
                assert(all[k] == v[k]);
            }
        }
        assert forall|a: int, b: int| 0 <= a < b < all.len() implies !comes_first(
            #[trigger] all[b],
            #[trigger] all[a],
        ) by {
            if b == v.len() && comes_first(j, v[a]) {
                if a < v.len() - 1 {
                    assert(!comes_first(v[v.len() - 1], v[a]));
                    lemma_first_transitive(j, v[a], v.last());
                }
            }
        }
    }
}

proof fn lemma_first_asymmetric(a: JobModel, b: JobModel)
    requires
        comes_first(a, b),
    ensures
        !comes_first(b, a),
{
    if text_lt(a.id, b.id) && text_lt(b.id, a.id) {
        lemma_lt_transitive(a.id, b.id, a.id);
        lemma_lt_irreflexive(a.id);
    }
}

/// What comes before a job also comes before whatever does not come before that job.
proof fn lemma_first_transitive(j: JobModel, a: JobModel, b: JobModel)
    requires
        comes_first(j, a),
        !comes_first(b, a),
    ensures
        comes_first(j, b),
{
    lemma_lt_total(a.id, b.id);
    if a.execute_at == b.execute_at && j.execute_at == a.execute_at {
        if a.id != b.id {
            lemma_lt_transitive(j.id, a.id, b.id);
        }
    }
}

/// The list of jobs is ordered by the time of execution.
pub proof fn jobs_are_listed_by_time(
    m: Map<Seq<char>, JobModel>,
    keys: Seq<Seq<char>>,
    visible: Set<Seq<char>>,
)
    ensures
        in_time_order(visible_jobs(m, keys, visible)),
    decreases keys.len(),
{
    if keys.len() > 0 {
        jobs_are_listed_by_time(m, keys.drop_last(), visible);
        lemma_time_order(visible_jobs(m, keys.drop_last(), visible), m[keys.last()]);
    }
}

#[verifier::loop_isolation(false)]
fn insert_job(v: &mut Vec<Job>, j: Job)
    ensures
        views(final(v)@) == inserted_by_time(views(old(v)@), j@),
{
    let ghost all = views(v@);
    let mut i: usize = v.len();
    while i > 0 && (j.execute_at < v[i - 1].execute_at || (j.execute_at == v[i - 1].execute_at && before(
        j.id.as_str(),
        v[i - 1].id.as_str(),
    )))
        invariant
            i <= v.len(),
            all == views(v@),
            forall|k: int| i <= k < v.len() ==> comes_first(j@, #[trigger] all[k]),
        decreases i,
    {
        assert(all[i - 1] == v[i - 1]@);
        i = i - 1;
    }
    proof {
        if i > 0 {
            assert(all[i - 1] == v[i - 1]@);
        }
        lemma_inserted(all, j@, i as int);
    }
    let ghost jm = j@;
    v.insert(i, j);
    assert(views(v@) =~= all.insert(i as int, jm));
}

impl Core {
    /// The jobs of the users that the caller may see, by their time.
    #[verifier::loop_isolation(false)]
    pub fn offboard_list(&self, tx: &Tx, visible: &Names) -> (r: Vec<Job>)
        ensures
            views(r@) == visible_jobs(
                tx@.offboard_jobs,
                in_order(tx@.offboard_jobs.dom()),
                visible@,
            ),
    {
        let keys = tx.offboard_jobs.keys();
        let ghost all = in_order(keys@);
        let n: usize = keys.len();
        let mut out: Vec<Job> = Vec::new();
        let mut i: usize = 0;
        assert(views(out@) =~= Seq::<JobModel>::empty());
        while i < n
            invariant
                i <= n,
                views(out@) == visible_jobs(tx@.offboard_jobs, all.take(i as int), visible@),
            decreases n - i,
        {
            proof {
                assert(all.take(i + 1).drop_last() =~= all.take(i as int));
            }
            if let Some(job) = tx.offboard_jobs.get(keys.at(i).as_str()) {
                if visible.contains(job.username.as_str()) {
                    insert_job(&mut out, job.dup());
                }
            }
            i = i + 1;
        }
        assert(all.take(n as int) =~= all);
        out
    }
}

/// A time zone is only shown: two reschedules to one instant leave the same execution time and the
/// same next attempt, whatever zones they name, each zone is kept as it was typed, and nothing else
/// of the job changes.
pub proof fn zones_do_not_move_a_job(
    t: TxModel,
    id: Seq<char>,
    actor: PrincipalModel,
    input: RescheduleRequestModel,
    remaining: Option<Failure>,
    other: PrincipalModel,
    again: RescheduleRequestModel,
    left: Option<Failure>,
)
    requires
        t.offboard_jobs[id].id == id,
        rescheduled(t, actor, id, input, remaining).1 is Ok,
        rescheduled(rescheduled(t, actor, id, input, remaining).0, other, id, again, left).1 is Ok,
        instant_of(input.execute_at) == instant_of(again.execute_at),
    ensures
        ({
            let u = rescheduled(t, actor, id, input, remaining).0;
            let w = rescheduled(u, other, id, again, left).0;
            let at = instant_of(input.execute_at)->Ok_0;
            &&& u.offboard_jobs[id] == (JobModel {
                execute_at: at,
                next_attempt: at,
                timezone: input.timezone,
                ..t.offboard_jobs[id]
            })
            &&& w.offboard_jobs[id] == (JobModel {
                execute_at: at,
                next_attempt: at,
                timezone: again.timezone,
                ..t.offboard_jobs[id]
            })
        }),
{
}

/// A job is scheduled for a later instant, at most 366 days ahead, for a user who has no other; an
/// agent schedules none for an administrator. It then waits for its instant.
pub proof fn scheduled_jobs_wait_for_their_instant(
    t: TxModel,
    actor: PrincipalModel,
    input: ScheduleRequestModel,
    rules: RulesModel,
    at: u64,
    user: UserModel,
)
    requires
        name_check(rules, input.username) is Ok,
        zone_label(input.timezone),
        input.execute_at == ExecuteAtModel::Unix(at),
        named_user(t, input.username) == Some(user),
        t.now + 366 * 86400 <= u64::MAX,
    ensures
        ({
            let out = scheduled(t, actor, input, None, rules);
            let j = out.1->Ok_0;
            &&& out.1 is Ok <==> {
                &&& at > t.now && at <= t.now + 366 * 86400
                &&& !(actor.agent && user.admin)
                &&& !being_offboarded(t.offboard_jobs, user.id)
            }
            &&& out.1 is Ok ==> {
                &&& j.user_id == user.id && j.username == user.username
                &&& j.execute_at == at && j.next_attempt == at && j.timezone == input.timezone
                &&& j.status == Status::Scheduled && j.attempts == 0 && j.lease_owner is None
                &&& !j.cancel_requested && j.result is None && j.last_error is None
                &&& j.created_by == actor.id && j.created_at == t.now
                &&& out.0.offboard_jobs == t.offboard_jobs.insert(j.id, j)
                &&& being_offboarded(out.0.offboard_jobs, user.id)
            }
            &&& out.1 is Err ==> out.0 == t
            &&& out.0.users == t.users
        }),
{
    let out = scheduled(t, actor, input, None, rules);
    if out.1 is Ok {
        assert(out.0.offboard_jobs.dom().contains((out.1->Ok_0).id));
    }
}

/// Who cancels a job that waits stops it at once; a running one is marked, and a finished one stays.
pub proof fn waiting_jobs_are_cancelled_at_once(t: TxModel, actor: PrincipalModel, id: Seq<char>)
    requires
        t.offboard_jobs.dom().contains(id),
        t.offboard_jobs[id].id == id,
    ensures
        ({
            let j = t.offboard_jobs[id];
            let out = cancelled(t, actor, id);
            let next = out.0.offboard_jobs[id];
            &&& j.status == Status::Scheduled ==> out.1 is Ok && next.status == Status::Cancelled
                && next.lease_owner is None
            &&& j.status == Status::Running ==> out.1 is Ok && next.status == Status::Running
                && next.cancel_requested && next.lease_owner == j.lease_owner
            &&& j.status == Status::Cancelled ==> out.1 is Ok && out.0 == t
            &&& j.status == Status::Done || j.status == Status::Failed ==> out.1 is Err && out.0 == t
            &&& out.1 is Ok ==> out.1->Ok_0 == next
            &&& next.user_id == j.user_id && next.execute_at == j.execute_at
        }),
{
}

/// An instant is the second that was given, or the one that a date with an offset names; a date
/// without an offset, before the first second, or too long is no instant.
pub proof fn instants_are_read_exactly(n: u64, text: Seq<char>)
    ensures
        instant_of(ExecuteAtModel::Unix(n)) == Ok::<u64, Failure>(n),
        instant_of(ExecuteAtModel::Rfc3339(text)) is Ok <==> 0 < text.len() && byte_count(text) <= 64
            && !some_control(text) && explicit_offset(text) && rfc3339_seconds(text) is Some
            && rfc3339_seconds(text)->0 >= 0,
        instant_of(ExecuteAtModel::Rfc3339(text)) matches Ok(s) ==> rfc3339_seconds(text)->0 == s,
{
}

/// A job is put off while it waits: to an instant that is still to come and at most a year away, for
/// the same user, by somebody who may. Everything else about it stays.
pub proof fn waiting_jobs_can_be_put_off(
    t: TxModel,
    actor: PrincipalModel,
    id: Seq<char>,
    input: RescheduleRequestModel,
    remaining: Option<Failure>,
)
    ensures
        ({
            let (u, r) = rescheduled(t, actor, id, input, remaining);
            let j = t.offboard_jobs[id];
            &&& r is Err ==> u == t
            &&& r matches Ok(next) ==> {
                let at = instant_of(input.execute_at)->Ok_0;
                &&& instant_of(input.execute_at) is Ok
                &&& at > t.now && window_check(at, t.now) is Ok
                &&& t.offboard_jobs.dom().contains(id)
                &&& j.status == Status::Scheduled && !j.cancel_requested
                &&& named_user(t, j.username) is Some && (named_user(t, j.username)->0).id == j.user_id
                &&& !(actor.agent && (named_user(t, j.username)->0).admin)
                &&& remaining is None
                &&& next.execute_at == at && next.next_attempt == at && next.timezone == input.timezone
                &&& next.id == j.id && next.user_id == j.user_id && next.status == Status::Scheduled
                &&& next.attempts == j.attempts && next.created_by == j.created_by
                &&& u.audit.last().actor == actor.id && u.audit.last().action == "offboard.reschedule"@
            }
        }),
{
}

/// An instant is in the window if it is still to come and no further away than a job may be.
pub proof fn jobs_are_planned_ahead(execute_at: u64, at: u64)
    requires
        at <= u64::MAX - MAX_SCHEDULE_SECONDS,
    ensures
        window_check(execute_at, at) is Ok <==> at < execute_at && execute_at - at <= MAX_SCHEDULE_SECONDS,
{
}

/// A date has an offset if it ends in Z, or in a sign, two digits, a colon and two digits.
pub proof fn offsets_are_explicit(date: Seq<char>, a: char, b: char, c: char, d: char)
    requires
        '0' <= a <= '9' && '0' <= b <= '9' && '0' <= c <= '9' && '0' <= d <= '9',
    ensures
        explicit_offset(date.push('Z')),
        explicit_offset(date.push('z')),
        explicit_offset(date + seq!['+', a, b, ':', c, d]),
        explicit_offset(date + seq!['-', a, b, ':', c, d]),
        !explicit_offset(date + seq![a, b, ':', c, d]) || date.len() > 0 && (date.last() == '+' || date.last()
            == '-'),
        !explicit_offset(date + seq!['+', a, b, c, d]) || date.len() > 0,
{
    let s = date + seq!['+', a, b, ':', c, d];
    let n = s.len() as int;
    assert(s[n - 6] == '+' && s[n - 5] == a && s[n - 4] == b && s[n - 3] == ':' && s[n - 2] == c && s[n - 1] == d);
    let m = date + seq!['-', a, b, ':', c, d];
    assert(m[n - 6] == '-' && m[n - 5] == a && m[n - 4] == b && m[n - 3] == ':' && m[n - 2] == c && m[n - 1] == d);
    let w = date + seq![a, b, ':', c, d];
    let k = w.len() as int;
    assert(w[k - 1] == d);
    if k >= 6 {
        assert(w[k - 6] == date.last());
    }
}

/// A user is being offboarded while one of their jobs waits or runs.
pub proof fn offboarding_is_in_progress(m: Map<Seq<char>, JobModel>, user_id: Seq<char>, k: Seq<char>)
    ensures
        m.dom().contains(k) && m[k].user_id == user_id && (m[k].status == Status::Scheduled || m[k].status
            == Status::Running) ==> being_offboarded(m, user_id),
        (forall|j: Seq<char>| #[trigger]
            m.dom().contains(j) ==> m[j].user_id != user_id || m[j].status == Status::Done || m[j].status
                == Status::Failed || m[j].status == Status::Cancelled) ==> !being_offboarded(m, user_id),
{
}

} // verus!
