//! The worker that executes due offboardings.
use crate::engine::{Core, PrincipalModel, audit, audited, drawn, extended, next_id, power_of_two};
use crate::error::{Error, Failure, agrees, agrees_with, copy_error, fails, opt_failure};
use crate::json::{Json, JsonModel, Member, lemma_members_of, member, members_of, text};
use crate::logout::{SelectionModel, ended_all, queue_user, queued};
use crate::model::{User, UserModel};
use crate::mtls::{named_user, user_by_name};
use crate::names::in_order;
use crate::offboarding::{BeforeCommit, Job, JobModel, LEASE_SECONDS, MAX_ATTEMPTS, Status, audit_target, cancelled, denied, deny, is_active, job_target, owner_check, store_job, stored, validate_owner};
use crate::rules::{tell, told};
use crate::store::{Tx, TxModel};
use crate::table::{Row, Table, opt_view};
use crate::text::{chars_of, concat, control, has_prefix, is_control, opt_is, same, slice_of, some_control, starts_with, texts};
use vstd::prelude::*;
use vstd::string::*;

verus! {

/// What an agent that scheduled a job may still do.
pub struct AgentStanding {
    pub known: bool,
    pub active: bool,
    /// The agent may offboard the job's user.
    pub permitted: bool,
}

/// What a [`AgentStanding`] holds.
pub struct AgentStandingModel {
    pub known: bool,
    pub active: bool,
    pub permitted: bool,
}

impl View for AgentStanding {
    type V = AgentStandingModel;

    open spec fn view(&self) -> AgentStandingModel {
        AgentStandingModel {
            known: self.known,
            active: self.active,
            permitted: self.permitted,
        }
    }
}

impl Row for AgentStanding {
    fn dup(&self) -> (r: Self) {
        AgentStanding {
            known: self.known,
            active: self.active,
            permitted: self.permitted,
        }
    }
}

/// Verdicts of the rules outside the library that an execution meets.
pub struct Review {
    pub agent: AgentStanding,
    /// Why the rule on the last administrator forbids it, if it does.
    pub remaining: Option<Error>,
    /// Whether provisioning targets are configured.
    pub targets: bool,
    /// The texts of refusals by rules outside the library.
    pub messages: Table<String>,
}

/// What a [`Review`] holds.
pub struct ReviewModel {
    pub agent: AgentStandingModel,
    pub remaining: Option<Failure>,
    pub targets: bool,
    pub messages: Map<Seq<char>, Seq<char>>,
}

impl View for Review {
    type V = ReviewModel;

    open spec fn view(&self) -> ReviewModel {
        ReviewModel {
            agent: self.agent@,
            remaining: opt_failure(self.remaining),
            targets: self.targets,
            messages: self.messages@,
        }
    }
}

pub open spec fn plain_char() -> spec_fn(char) -> bool {
    |c: char| !control(c)
}

/// A message as it is shown: at most 200 characters, none of them a control character.
pub open spec fn shown_error(m: Seq<char>) -> Seq<char> {
    let s = m.filter(plain_char());
    if s.len() == 0 {
        "Offboarding attempt failed"@
    } else if s.len() > 200 {
        s.take(200)
    } else {
        s
    }
}

#[verifier::loop_isolation(false)]
pub fn public_error(message: &str) -> (r: String)
    ensures
        r@ == shown_error(message@),
{
    let v = chars_of(message);
    let ghost p = plain_char();
    let mut out: Vec<char> = Vec::new();
    let mut i: usize = 0;
    assert(v@.take(0).filter(p) =~= Seq::<char>::empty());
    while i < v.len()
        invariant
            i <= v.len(),
            out@ == v@.take(i as int).filter(p),
        decreases v.len() - i,
    {
        proof {
            assert(v@.take(i + 1) =~= v@.take(i as int).push(v@[i as int]));
            v@.take(i as int).lemma_filter_push(v@[i as int], p);
        }
        if !is_control(v[i]) {
            out.push(v[i]);
        }
        i = i + 1;
    }
    assert(v@.take(i as int) =~= v@);
    if out.len() == 0 {
        return "Offboarding attempt failed".to_owned();
    }
    let n: usize = if out.len() > 200 {
        200
    } else {
        out.len()
    };
    assert(out@.subrange(0, n as int) =~= out@.take(n as int));
    assert(out@.take(out.len() as int) =~= out@);
    slice_of(&out, 0, n)
}

/// The seconds before the next attempt: half a minute, doubled after each failure up to eight
/// times.
pub open spec fn pause_after(attempts: u32) -> u64 {
    let n = if attempts == 0 {
        0
    } else if attempts > 9 {
        8
    } else {
        (attempts - 1) as nat
    };
    (30 * power_of_two(n)) as u64
}

pub fn backoff(attempts: u32) -> (r: u64)
    ensures
        r == pause_after(attempts),
        30 <= r <= 7680,
{
    proof {
        reveal_with_fuel(power_of_two, 9);
    }
    if attempts <= 1 {
        30
    } else if attempts == 2 {
        60
    } else if attempts == 3 {
        120
    } else if attempts == 4 {
        240
    } else if attempts == 5 {
        480
    } else if attempts == 6 {
        960
    } else if attempts == 7 {
        1920
    } else if attempts == 8 {
        3840
    } else {
        7680
    }
}

/// The job without a lease.
pub open spec fn released(j: JobModel, now: u64, status: Status) -> JobModel {
    JobModel { lease_owner: None, lease_until: 0, next_attempt: now, status, ..j }
}

/// A job that no one finished within the allowed attempts.
pub open spec fn exhausted(t: TxModel, j: JobModel) -> (TxModel, JobModel) {
    let next = JobModel {
        last_error: Some("Offboarding stopped after 5 attempts"@),
        ..released(j, t.now, Status::Failed)
    };
    (
        audited(stored(t, next), next.created_by, "offboard.execute"@, job_target(next)),
        next,
    )
}

/// A cancelled job whose worker is gone, or that none had.
pub open spec fn cancellation_due(j: JobModel, now: u64) -> bool {
    j.cancel_requested && (j.status == Status::Scheduled || (j.status == Status::Running
        && j.lease_until <= now))
}

/// A running job whose worker is gone after the last allowed attempt.
pub open spec fn out_of_attempts(j: JobModel, now: u64) -> bool {
    j.status == Status::Running && j.lease_until <= now && j.attempts >= MAX_ATTEMPTS
}

/// A job that can be worked on now.
pub open spec fn is_due(j: JobModel, now: u64) -> bool {
    !j.cancel_requested && j.next_attempt <= now && match j.status {
        Status::Scheduled => j.execute_at <= now,
        Status::Running => j.lease_until <= now && j.attempts < MAX_ATTEMPTS,
        _ => false,
    }
}

/// A job that a worker took.
pub open spec fn leased(j: JobModel, owner: Seq<char>, now: u64) -> JobModel {
    JobModel {
        status: Status::Running,
        lease_owner: Some(owner),
        lease_until: extended(now, LEASE_SECONDS),
        next_attempt: extended(now, LEASE_SECONDS),
        attempts: if j.attempts == u32::MAX {
            u32::MAX
        } else {
            (j.attempts + 1) as u32
        },
        ..j
    }
}

/// The first of the due jobs that the worker takes, with the store after the jobs before it were
/// looked at.
pub open spec fn taken_job(t: TxModel, keys: Seq<Seq<char>>, owner: Seq<char>) -> (
    TxModel,
    Option<JobModel>,
)
    decreases keys.len(),
{
    if keys.len() == 0 {
        (t, None)
    } else {
        let was = taken_job(t, keys.drop_last(), owner);
        let u = was.0;
        let k = keys.last();
        if was.1 is Some || !u.offboard_jobs.dom().contains(k) {
            was
        } else {
            let j = u.offboard_jobs[k];
            if cancellation_due(j, u.now) {
                (stored(u, released(j, u.now, Status::Cancelled)), None)
            } else if out_of_attempts(j, u.now) {
                (exhausted(u, j).0, None)
            } else if is_due(j, u.now) {
                let next = leased(j, owner, u.now);
                (stored(u, next), Some(next))
            } else {
                was
            }
        }
    }
}

proof fn lemma_taken(t: TxModel, keys: Seq<Seq<char>>, owner: Seq<char>, n: int)
    requires
        0 <= n <= keys.len(),
        taken_job(t, keys.take(n), owner).1 is Some,
    ensures
        taken_job(t, keys, owner) == taken_job(t, keys.take(n), owner),
    decreases keys.len() - n,
{
    if n < keys.len() {
        assert(keys.take(n + 1).drop_last() =~= keys.take(n));
        lemma_taken(t, keys, owner, n + 1);
    } else {
        assert(keys.take(n) =~= keys);
    }
}

fn release(j: &mut Job, now: u64, status: Status)
    ensures
        final(j)@ == released(old(j)@, now, status),
{
    j.lease_owner = None;
    j.lease_until = 0;
    j.next_attempt = now;
    j.status = status;
}

/// What claiming does.
pub open spec fn claimed_job(t: TxModel, keys: Seq<Seq<char>>, owner: Seq<char>) -> (
    TxModel,
    Result<Option<JobModel>, Failure>,
) {
    match owner_check(owner) {
        Err(f) => (t, Err(f)),
        Ok(_) => {
            let out = taken_job(t, keys, owner);
            (out.0, Ok(out.1))
        },
    }
}

fn running(s: Status) -> (r: bool)
    ensures
        r == (s == Status::Running),
{
    match s {
        Status::Running => true,
        _ => false,
    }
}

fn waiting(s: Status) -> (r: bool)
    ensures
        r == (s == Status::Scheduled),
{
    match s {
        Status::Scheduled => true,
        _ => false,
    }
}

impl Core {
    /// Takes one of the due jobs. A job whose lease still stands is left to its worker.
    #[verifier::loop_isolation(false)]
    pub fn offboard_claim(&self, tx: &mut Tx, due: &Vec<String>, owner: &str) -> (r: Result<
        Option<Job>,
        Error,
    >)
        ensures
            ({
                let out = claimed_job(old(tx)@, texts(due@), owner@);
                final(tx)@ == out.0 && match out.1 {
                    Ok(o) => r is Ok && opt_view(r->Ok_0) == o,
                    Err(f) => fails(r, f),
                }
            }),
    {
        if let Err(e) = validate_owner(owner) {
            return Err(e);
        }
        let ghost t0 = tx@;
        let ghost all = texts(due@);
        let n: usize = due.len();
        let mut i: usize = 0;
        assert(all.take(0) =~= Seq::<Seq<char>>::empty());
        while i < n
            invariant
                i <= n,
                taken_job(t0, all.take(i as int), owner@) == (tx@, None::<JobModel>),
            decreases n - i,
        {
            proof {
                assert(all.take(i + 1).drop_last() =~= all.take(i as int));
                assert(all.take(i + 1).last() == due@[i as int]@);
            }
            let found = match tx.offboard_jobs.get(due[i].as_str()) {
                Some(j) => Some(j.dup()),
                None => None,
            };
            if let Some(j) = found {
                let mut job = j;
                let now = tx.now;
                if job.cancel_requested && (waiting(job.status) || (running(job.status)
                    && job.lease_until <= now)) {
                    release(&mut job, now, Status::Cancelled);
                    store_job(tx, &job);
                } else if running(job.status) && job.lease_until <= now && job.attempts
                    >= MAX_ATTEMPTS {
                    release(&mut job, now, Status::Failed);
                    job.last_error = Some("Offboarding stopped after 5 attempts".to_owned());
                    store_job(tx, &job);
                    let target = audit_target(&job);
                    audit(tx, job.created_by.as_str(), "offboard.execute", target.as_str());
                } else if !job.cancel_requested && job.next_attempt <= now && ((waiting(job.status)
                    && job.execute_at <= now) || (running(job.status) && job.lease_until <= now
                    && job.attempts < MAX_ATTEMPTS)) {
                    job.status = Status::Running;
                    job.lease_owner = Some(owner.to_owned());
                    job.lease_until = now.saturating_add(LEASE_SECONDS);
                    job.next_attempt = now.saturating_add(LEASE_SECONDS);
                    job.attempts = job.attempts.saturating_add(1);
                    store_job(tx, &job);
                    proof {
                        lemma_taken(t0, all, owner@, i + 1);
                    }
                    return Ok(Some(job));
                }
            }
            i = i + 1;
        }
        assert(all.take(n as int) =~= all);
        Ok(None)
    }
}

/// Whether whoever scheduled the job may still offboard its user.
pub open spec fn authority_check(
    t: TxModel,
    j: JobModel,
    user: UserModel,
    agent: AgentStandingModel,
) -> Result<(), Failure> {
    if has_prefix(j.created_by, "agent:"@) {
        if !agent.known {
            Err(denied("Offboarding agent is no longer active"@))
        } else if !agent.active {
            Err(denied("Offboarding agent or its parent is no longer active"@))
        } else if user.admin {
            Err(denied("Agents cannot offboard administrators"@))
        } else if !agent.permitted {
            Err(Failure::Forbidden)
        } else {
            Ok(())
        }
    } else if !t.users.dom().contains(j.created_by) || !t.users[j.created_by].enabled
        || !t.users[j.created_by].admin {
        Err(denied("Offboarding administrator is no longer active"@))
    } else {
        Ok(())
    }
}

fn check_authority(tx: &Tx, j: &Job, user: &User, agent: &AgentStanding) -> (r: Result<(), Error>)
    ensures
        agrees(r, authority_check(tx@, j@, user@, agent@)),
{
    if starts_with(j.created_by.as_str(), "agent:") {
        if !agent.known {
            return Err(deny("Offboarding agent is no longer active"));
        }
        if !agent.active {
            return Err(deny("Offboarding agent or its parent is no longer active"));
        }
        if user.admin {
            return Err(deny("Agents cannot offboard administrators"));
        }
        if !agent.permitted {
            return Err(Error::Forbidden);
        }
        return Ok(());
    }
    let stands = match tx.users.get(j.created_by.as_str()) {
        Some(u) => u.enabled && u.admin,
        None => false,
    };
    if !stands {
        return Err(deny("Offboarding administrator is no longer active"));
    }
    Ok(())
}

/// What an execution reports of the accounts elsewhere.
pub open spec fn downstream_report(targets: bool) -> JsonModel {
    let base = seq![
        ("downstream"@, JsonModel::Text("local-only"@)),
        ("scim_targets_configured"@, JsonModel::Bool(targets)),
    ];
    JsonModel::Object(
        if targets {
            base.push(
                (
                    "note"@,
                    JsonModel::Text(
                        "Configured SCIM targets were not called. Run provision plan and apply to deactivate linked downstream accounts."@,
                    ),
                ),
            )
        } else {
            base
        },
    )
}

pub fn downstream_result(targets: bool) -> (r: Json)
    ensures
        r@ == downstream_report(targets),
{
    let mut m: Vec<Member> = Vec::new();
    m.push(member("downstream", text("local-only")));
    m.push(member("scim_targets_configured", Json::Bool(targets)));
    if targets {
        m.push(
            member(
                "note",
                text(
                    "Configured SCIM targets were not called. Run provision plan and apply to deactivate linked downstream accounts.",
                ),
            ),
        );
    }
    proof {
        lemma_members_of(m);
        assert(members_of(m@) =~= downstream_report(targets)->Object_0);
    }
    Json::Object(m)
}

/// The user disabled, with a new epoch that ends their sessions and grants, and their relying
/// parties told.
pub open spec fn disabled(t: TxModel, user: UserModel) -> TxModel {
    queued(
        TxModel {
            users: t.users.insert(
                user.id,
                UserModel {
                    enabled: false,
                    epoch: if user.epoch == u64::MAX {
                        u64::MAX
                    } else {
                        (user.epoch + 1) as u64
                    },
                    ..user
                },
            ),
            ..t
        },
        SelectionModel::User(user.id),
    )
}

/// The local part of an execution.
pub open spec fn locally_applied(t: TxModel, j: JobModel, review: ReviewModel) -> Result<
    TxModel,
    Failure,
> {
    match named_user(t, j.username) {
        None => Err(Failure::Missing("User not found"@)),
        Some(user) => if user.id != j.user_id {
            Err(Failure::Conflict("Offboarding user identity changed"@))
        } else {
            match authority_check(t, j, user, review.agent) {
                Err(f) => Err(f),
                Ok(_) => if review.remaining is Some {
                    Err(review.remaining->0)
                } else {
                    Ok(disabled(t, user))
                },
            }
        },
    }
}

fn apply_local(tx: &mut Tx, j: &Job, review: &Review) -> (r: Result<(), Error>)
    ensures
        match locally_applied(old(tx)@, j@, review@) {
            Ok(t) => r is Ok && final(tx)@ == t,
            Err(f) => fails(r, f) && final(tx)@ == old(tx)@,
        },
{
    let mut user = match user_by_name(tx, j.username.as_str()) {
        Err(e) => return Err(e),
        Ok(u) => u,
    };
    if !same(user.id.as_str(), j.user_id.as_str()) {
        return Err(Error::conflict("Offboarding user identity changed"));
    }
    if let Err(e) = check_authority(tx, j, &user, &review.agent) {
        return Err(e);
    }
    if let Some(e) = &review.remaining {
        return Err(copy_error(e));
    }
    user.enabled = false;
    user.epoch = user.epoch.saturating_add(1);
    let id = user.id.clone();
    tx.users.put(id.as_str(), user);
    queue_user(tx, id.as_str());
    Ok(())
}

/// A failure that trying again cannot mend.
pub open spec fn permanent(f: Failure) -> bool {
    match f {
        Failure::Conflict(_) => true,
        Failure::Missing(_) => true,
        Failure::Forbidden => true,
        Failure::Reply(_, code, _) => code == "conflict"@ || code == "not_found"@ || code
            == "access_denied"@,
        _ => false,
    }
}

fn is_permanent(e: &Error) -> (r: bool)
    ensures
        r == permanent(e@),
{
    match e {
        Error::Conflict(_) => true,
        Error::Missing(_) => true,
        Error::Forbidden => true,
        Error::Reply(_, code, _) => same(code.as_str(), "conflict") || same(
            code.as_str(),
            "not_found",
        ) || same(code.as_str(), "access_denied"),
        _ => false,
    }
}

pub open spec fn lease_lost() -> Failure {
    Failure::Reply(409, "lease_lost"@, "Offboarding lease is no longer held"@)
}

pub open spec fn retry_wanted() -> Failure {
    Failure::Reply(
        503,
        "offboard_retry"@,
        "Offboarding attempt failed before changes were committed"@,
    )
}

/// What committing does.
pub open spec fn committed(
    t: TxModel,
    owner: Seq<char>,
    id: Seq<char>,
    mode: BeforeCommit,
    review: ReviewModel,
) -> (TxModel, Result<JobModel, Failure>) {
    match owner_check(owner) {
        Err(f) => (t, Err(f)),
        Ok(_) => if !t.offboard_jobs.dom().contains(id) {
            (t, Err(Failure::Missing("Offboarding job not found"@)))
        } else {
            let j = t.offboard_jobs[id];
            if !is_active(j) {
                (t, Ok(j))
            } else if j.lease_owner != Some(owner) || j.lease_until <= t.now || j.status
                != Status::Running {
                (t, Err(lease_lost()))
            } else if j.cancel_requested {
                let next = released(j, t.now, Status::Cancelled);
                (stored(t, next), Ok(next))
            } else if mode == BeforeCommit::RetryableFailure {
                (t, Err(retry_wanted()))
            } else {
                match locally_applied(t, j, review) {
                    Ok(u) => {
                        let next = JobModel {
                            result: Some(downstream_report(review.targets)),
                            last_error: None,
                            ..released(j, u.now, Status::Done)
                        };
                        (
                            audited(
                                stored(u, next),
                                next.created_by,
                                "offboard.execute"@,
                                job_target(next),
                            ),
                            Ok(next),
                        )
                    },
                    Err(f) => if permanent(f) {
                        let next = JobModel {
                            result: None,
                            last_error: Some(shown_error(told(review.messages, f))),
                            ..released(j, t.now, Status::Failed)
                        };
                        (
                            audited(
                                stored(t, next),
                                next.created_by,
                                "offboard.execute"@,
                                job_target(next),
                            ),
                            Ok(next),
                        )
                    } else {
                        (t, Err(f))
                    },
                }
            }
        },
    }
}

impl Core {
    /// Executes the job that the worker leased, unless its lease is lost or the job was cancelled.
    pub fn offboard_commit(
        &self,
        tx: &mut Tx,
        owner: &str,
        id: &str,
        mode: BeforeCommit,
        review: &Review,
    ) -> (r: Result<Job, Error>)
        ensures
            ({
                let out = committed(old(tx)@, owner@, id@, mode, review@);
                final(tx)@ == out.0 && agrees_with(r, out.1)
            }),
    {
        if let Err(e) = validate_owner(owner) {
            return Err(e);
        }
        let mut job = match tx.offboard_jobs.get(id) {
            None => return Err(Error::missing("Offboarding job not found")),
            Some(j) => j.dup(),
        };
        if !job.active() {
            return Ok(job);
        }
        if !opt_is(&job.lease_owner, owner) || job.lease_until <= tx.now || !running(job.status) {
            return Err(Error::reply(409, "lease_lost", "Offboarding lease is no longer held"));
        }
        if job.cancel_requested {
            release(&mut job, tx.now, Status::Cancelled);
            store_job(tx, &job);
            return Ok(job);
        }
        if let BeforeCommit::RetryableFailure = mode {
            return Err(
                Error::reply(
                    503,
                    "offboard_retry",
                    "Offboarding attempt failed before changes were committed",
                ),
            );
        }
        match apply_local(tx, &job, review) {
            Ok(_) => {
                release(&mut job, tx.now, Status::Done);
                job.result = Some(downstream_result(review.targets));
                job.last_error = None;
            },
            Err(e) => {
                if !is_permanent(&e) {
                    return Err(e);
                }
                let m = tell(&review.messages, &e);
                release(&mut job, tx.now, Status::Failed);
                job.last_error = Some(public_error(m.as_str()));
                job.result = None;
            },
        }
        store_job(tx, &job);
        let target = audit_target(&job);
        audit(tx, job.created_by.as_str(), "offboard.execute", target.as_str());
        Ok(job)
    }
}

/// The store after a failure that can be retried was recorded.
pub open spec fn retried(t: TxModel, owner: Seq<char>, id: Seq<char>, message: Seq<char>) -> TxModel {
    if !t.offboard_jobs.dom().contains(id) || t.offboard_jobs[id].status != Status::Running
        || t.offboard_jobs[id].lease_owner != Some(owner) {
        t
    } else {
        let j = t.offboard_jobs[id];
        if j.attempts >= MAX_ATTEMPTS {
            let next = JobModel {
                last_error: Some(shown_error(message)),
                ..released(j, t.now, Status::Failed)
            };
            audited(stored(t, next), next.created_by, "offboard.execute"@, job_target(next))
        } else {
            stored(
                t,
                JobModel {
                    last_error: Some(shown_error(message)),
                    ..released(j, extended(t.now, pause_after(j.attempts)), Status::Scheduled)
                },
            )
        }
    }
}

/// What the worker does with the job it holds once it decided on `mode`: `t` is the store as it is
/// then, whatever others wrote since the claim.
pub open spec fn settled(
    t: TxModel,
    owner: Seq<char>,
    id: Seq<char>,
    mode: BeforeCommit,
    review: ReviewModel,
) -> (TxModel, Result<bool, Failure>) {
    let done = committed(t, owner, id, mode, review);
    match done.1 {
        Ok(_) => (done.0, Ok(true)),
        Err(f) => match f {
            Failure::Reply(_, code, message) => if code == "offboard_retry"@ {
                (retried(done.0, owner, id, message), Ok(true))
            } else if code == "lease_lost"@ {
                (done.0, Ok(true))
            } else {
                (done.0, Err(f))
            },
            _ => (done.0, Err(f)),
        },
    }
}

/// What processing one job does, where the worker decides on `mode` and nobody writes in between.
pub open spec fn processed(
    t: TxModel,
    due: Seq<Seq<char>>,
    owner: Seq<char>,
    mode: BeforeCommit,
    review: ReviewModel,
) -> (TxModel, Result<bool, Failure>) {
    let claim = claimed_job(t, due, owner);
    match claim.1 {
        Err(f) => (claim.0, Err(f)),
        Ok(None) => (claim.0, Ok(false)),
        Ok(Some(j)) => settled(claim.0, owner, j.id, mode, review),
    }
}

impl Core {
    fn record_retry(&self, tx: &mut Tx, owner: &str, id: &str, message: &str)
        ensures
            final(tx)@ == retried(old(tx)@, owner@, id@, message@),
    {
        let mut job = match tx.offboard_jobs.get(id) {
            None => return,
            Some(j) => j.dup(),
        };
        if !running(job.status) || !opt_is(&job.lease_owner, owner) {
            return;
        }
        job.last_error = Some(public_error(message));
        if job.attempts >= MAX_ATTEMPTS {
            release(&mut job, tx.now, Status::Failed);
            store_job(tx, &job);
            let target = audit_target(&job);
            audit(tx, job.created_by.as_str(), "offboard.execute", target.as_str());
        } else {
            let at = tx.now.saturating_add(backoff(job.attempts));
            release(&mut job, at, Status::Scheduled);
            store_job(tx, &job);
        }
    }

    /// Ends the attempt of a worker that claimed the job. A job that was cancelled, or taken by
    /// another worker, since the claim is left alone.
    pub fn offboard_settle(
        &self,
        tx: &mut Tx,
        owner: &str,
        id: &str,
        mode: BeforeCommit,
        review: &Review,
    ) -> (r: Result<bool, Error>)
        ensures
            ({
                let out = settled(old(tx)@, owner@, id@, mode, review@);
                &&& final(tx)@ == out.0
                &&& match out.1 {
                    Ok(b) => r is Ok && r->Ok_0 == b,
                    Err(f) => fails(r, f),
                }
            }),
    {
        match self.offboard_commit(tx, owner, id, mode, review) {
            Ok(_) => Ok(true),
            Err(e) => match e {
                Error::Reply(s, code, message) => {
                    if same(code.as_str(), "offboard_retry") {
                        self.record_retry(tx, owner, id, message.as_str());
                        Ok(true)
                    } else if same(code.as_str(), "lease_lost") {
                        Ok(true)
                    } else {
                        Err(Error::Reply(s, code, message))
                    }
                },
                other => Err(other),
            },
        }
    }

    /// Claims and executes one job. `before_commit` decides once the lease is held, before
    /// anything is revoked.
    pub fn offboard_process<F: FnOnce(&str) -> BeforeCommit>(
        &self,
        tx: &mut Tx,
        due: &Vec<String>,
        owner: &str,
        before_commit: F,
        review: &Review,
    ) -> (r: Result<bool, Error>)
        requires
            forall|id: &str| before_commit.requires((id,)),
        ensures
            exists|mode: BeforeCommit|
                {
                    let out = #[trigger] processed(old(tx)@, texts(due@), owner@, mode, review@);
                    let claim = claimed_job(old(tx)@, texts(due@), owner@).1;
                    &&& claim matches Ok(Some(j)) ==> exists|id: &str|
                        id@ == j.id && #[trigger] before_commit.ensures((id,), mode)
                    &&& final(tx)@ == out.0
                    &&& match out.1 {
                        Ok(b) => r is Ok && r->Ok_0 == b,
                        Err(f) => fails(r, f),
                    }
                },
    {
        let ghost t0 = tx@;
        let ghost any = BeforeCommit::Proceed;
        let job = match self.offboard_claim(tx, due, owner) {
            Err(e) => {
                assert(processed(t0, texts(due@), owner@, any, review@).1 is Err);
                return Err(e);
            },
            Ok(None) => {
                assert(processed(t0, texts(due@), owner@, any, review@).1 is Ok);
                return Ok(false);
            },
            Ok(Some(j)) => j,
        };
        let mode = before_commit(job.id.as_str());
        let ghost out = processed(t0, texts(due@), owner@, mode, review@);
        self.offboard_settle(tx, owner, job.id.as_str(), mode, review)
    }
}

fn proceed(id: &str) -> (r: BeforeCommit)
    ensures
        r == BeforeCommit::Proceed,
{
    BeforeCommit::Proceed
}

/// The store after up to `n` due jobs were executed, and the failure that stopped it, if one did.
pub open spec fn worked_off(
    t: TxModel,
    due: Seq<Seq<char>>,
    owner: Seq<char>,
    review: ReviewModel,
    n: nat,
) -> (TxModel, Result<(), Failure>)
    decreases n,
{
    if n == 0 {
        (t, Ok(()))
    } else {
        let one = processed(t, due, owner, BeforeCommit::Proceed, review);
        match one.1 {
            Err(f) => (one.0, Err(f)),
            Ok(false) => (one.0, Ok(())),
            Ok(true) => worked_off(one.0, due, owner, review, (n - 1) as nat),
        }
    }
}

/// Executes up to eight due jobs.
#[verifier::loop_isolation(false)]
pub fn cleanup(core: &Core, tx: &mut Tx, due: &Vec<String>, review: &Review) -> (r: Result<(), Error>)
    ensures
        ({
            let owner = "offboard:"@ + next_id(old(tx)@);
            let out = worked_off(drawn(old(tx)@), texts(due@), owner, review@, 8);
            final(tx)@ == out.0 && agrees(r, out.1)
        }),
{
    let id = tx.id();
    let owner = concat("offboard:", id.as_str());
    let ghost want = worked_off(tx@, texts(due@), owner@, review@, 8);
    let mut i: u8 = 0;
    while i < 8
        invariant
            i <= 8,
            want == worked_off(tx@, texts(due@), owner@, review@, (8 - i) as nat),
        decreases 8 - i,
    {
        match process_now(core, tx, due, owner.as_str(), review) {
            Err(e) => return Err(e),
            Ok(more) => {
                if !more {
                    return Ok(());
                }
            },
        }
        i = i + 1;
    }
    Ok(())
}

fn process_now(core: &Core, tx: &mut Tx, due: &Vec<String>, owner: &str, review: &Review) -> (r: Result<
    bool,
    Error,
>)
    ensures
        ({
            let out = processed(old(tx)@, texts(due@), owner@, BeforeCommit::Proceed, review@);
            final(tx)@ == out.0 && match out.1 {
                Ok(b) => r is Ok && r->Ok_0 == b,
                Err(f) => fails(r, f),
            }
        }),
{
    core.offboard_process(tx, due, owner, proceed, review)
}

/// Cancellation wins over execution: a flagged job is never executed by its worker, and its user
/// stays as they are.
pub proof fn cancellation_wins(
    t: TxModel,
    actor: PrincipalModel,
    owner: Seq<char>,
    id: Seq<char>,
    mode: BeforeCommit,
    review: ReviewModel,
)
    requires
        t.offboard_jobs.dom().contains(id),
        t.offboard_jobs[id].id == id,
        is_active(t.offboard_jobs[id]),
    ensures
        ({
            let u = cancelled(t, actor, id).0;
            committed(u, owner, id, mode, review).0.users == t.users && committed(
                u,
                owner,
                id,
                mode,
                review,
            ).0.offboard_jobs[id].status != Status::Done
        }),
{
}

/// Every job is kept under its own id.
pub open spec fn jobs_by_id(m: Map<Seq<char>, JobModel>) -> bool {
    forall|k: Seq<char>| #[trigger] m.dom().contains(k) ==> m[k].id == k
}

proof fn lemma_claim_holds(t: TxModel, keys: Seq<Seq<char>>, owner: Seq<char>)
    ensures
        taken_job(t, keys, owner).0.now == t.now,
        taken_job(t, keys, owner).0.users == t.users,
        taken_job(t, keys, owner).1 matches Some(j) ==> taken_job(
            t,
            keys,
            owner,
        ).0.offboard_jobs.dom().contains(j.id) && taken_job(t, keys, owner).0.offboard_jobs[j.id] == j
            && j.status == Status::Running && j.lease_owner == Some(owner) && j.lease_until
            == extended(t.now, LEASE_SECONDS) && !j.cancel_requested,
        jobs_by_id(t.offboard_jobs) ==> jobs_by_id(taken_job(t, keys, owner).0.offboard_jobs),
    decreases keys.len(),
{
    if keys.len() > 0 {
        lemma_claim_holds(t, keys.drop_last(), owner);
    }
}

proof fn lemma_lease_stands(t: TxModel, keys: Seq<Seq<char>>, owner: Seq<char>, k: Seq<char>)
    requires
        jobs_by_id(t.offboard_jobs),
        t.offboard_jobs.dom().contains(k),
        t.offboard_jobs[k].status == Status::Running,
        t.offboard_jobs[k].lease_until > t.now,
    ensures
        taken_job(t, keys, owner).0.offboard_jobs.dom().contains(k),
        taken_job(t, keys, owner).0.offboard_jobs[k] == t.offboard_jobs[k],
        taken_job(t, keys, owner).1 matches Some(j) ==> j.id != k,
    decreases keys.len(),
{
    if keys.len() > 0 {
        lemma_claim_holds(t, keys.drop_last(), owner);
        lemma_lease_stands(t, keys.drop_last(), owner, k);
    }
}

/// Whoever claims within the lease of another worker does not get its job: the job runs on under
/// the first worker's lease, and no attempt is counted.
pub proof fn leased_jobs_are_not_claimed_again(
    t: TxModel,
    due: Seq<Seq<char>>,
    first: Seq<char>,
    at: u64,
    due_then: Seq<Seq<char>>,
    second: Seq<char>,
    j: JobModel,
)
    requires
        jobs_by_id(t.offboard_jobs),
        claimed_job(t, due, first).1 == Ok::<Option<JobModel>, Failure>(Some(j)),
        t.now <= at < t.now + LEASE_SECONDS <= u64::MAX,
    ensures
        ({
            let u = TxModel { now: at, ..claimed_job(t, due, first).0 };
            let again = claimed_job(u, due_then, second);
            &&& again.1 matches Ok(Some(other)) ==> other.id != j.id
            &&& again.0.offboard_jobs[j.id] == j
            &&& j.status == Status::Running
            &&& j.lease_owner == Some(first)
            &&& j.lease_until == extended(t.now, LEASE_SECONDS)
        }),
{
    let u = TxModel { now: at, ..claimed_job(t, due, first).0 };
    lemma_claim_holds(t, due, first);
    lemma_lease_stands(u, due_then, second, j.id);
}

/// Who cancels a job while its worker prepares wins, whatever the worker then decides: the attempt
/// ends in the cancelled job, and the user stays as they were.
pub proof fn cancelling_a_running_job_wins(
    t: TxModel,
    due: Seq<Seq<char>>,
    owner: Seq<char>,
    j: JobModel,
    actor: PrincipalModel,
    mode: BeforeCommit,
    review: ReviewModel,
)
    requires
        claimed_job(t, due, owner).1 == Ok::<Option<JobModel>, Failure>(Some(j)),
        t.now < u64::MAX,
    ensures
        ({
            let u = cancelled(claimed_job(t, due, owner).0, actor, j.id).0;
            let out = settled(u, owner, j.id, mode, review);
            &&& out.1 == Ok::<bool, Failure>(true)
            &&& out.0.offboard_jobs[j.id].status == Status::Cancelled
            &&& out.0.users == t.users
        }),
{
    lemma_claim_holds(t, due, owner);
}

/// A job that is over stays as it is: no commit, retry or cancellation changes it.
pub proof fn finished_jobs_stay(
    t: TxModel,
    actor: PrincipalModel,
    owner: Seq<char>,
    id: Seq<char>,
    mode: BeforeCommit,
    review: ReviewModel,
    message: Seq<char>,
)
    requires
        t.offboard_jobs.dom().contains(id),
        !is_active(t.offboard_jobs[id]),
    ensures
        committed(t, owner, id, mode, review).0 == t,
        cancelled(t, actor, id).0 == t,
        retried(t, owner, id, message) == t,
{
}

/// Only the worker whose lease stands can execute a job.
pub proof fn only_the_lease_holder_executes(
    t: TxModel,
    owner: Seq<char>,
    id: Seq<char>,
    mode: BeforeCommit,
    review: ReviewModel,
)
    requires
        committed(t, owner, id, mode, review).0 != t,
    ensures
        t.offboard_jobs[id].lease_owner == Some(owner),
        t.offboard_jobs[id].lease_until > t.now,
        t.offboard_jobs[id].status == Status::Running,
{
}

/// The attempts of a job are bounded: a job that waits has attempts left, and none has more than
/// allowed.
pub open spec fn within_attempts(j: JobModel) -> bool {
    j.attempts <= MAX_ATTEMPTS && (j.status == Status::Scheduled ==> j.attempts < MAX_ATTEMPTS)
}

pub open spec fn all_within_attempts(m: Map<Seq<char>, JobModel>) -> bool {
    forall|k: Seq<char>| #[trigger] m.dom().contains(k) ==> within_attempts(m[k])
}

proof fn lemma_stored_within(t: TxModel, j: JobModel)
    requires
        all_within_attempts(t.offboard_jobs),
        within_attempts(j),
    ensures
        all_within_attempts(stored(t, j).offboard_jobs),
{
}

proof fn lemma_taken_within(t: TxModel, keys: Seq<Seq<char>>, owner: Seq<char>)
    requires
        all_within_attempts(t.offboard_jobs),
    ensures
        all_within_attempts(taken_job(t, keys, owner).0.offboard_jobs),
    decreases keys.len(),
{
    if keys.len() > 0 {
        lemma_taken_within(t, keys.drop_last(), owner);
        let u = taken_job(t, keys.drop_last(), owner).0;
        let k = keys.last();
        if u.offboard_jobs.dom().contains(k) {
            let j = u.offboard_jobs[k];
            lemma_stored_within(u, released(j, u.now, Status::Cancelled));
            if is_due(j, u.now) {
                lemma_stored_within(u, leased(j, owner, u.now));
            }
            lemma_stored_within(u, exhausted(u, j).1);
        }
    }
}

/// Claims, retries and commits keep every job within the allowed attempts.
pub proof fn attempts_stay_bounded(
    t: TxModel,
    due: Seq<Seq<char>>,
    owner: Seq<char>,
    id: Seq<char>,
    mode: BeforeCommit,
    review: ReviewModel,
    message: Seq<char>,
)
    requires
        all_within_attempts(t.offboard_jobs),
    ensures
        all_within_attempts(claimed_job(t, due, owner).0.offboard_jobs),
        all_within_attempts(retried(t, owner, id, message).offboard_jobs),
        all_within_attempts(committed(t, owner, id, mode, review).0.offboard_jobs),
{
    lemma_taken_within(t, due, owner);
    if t.offboard_jobs.dom().contains(id) {
        let j = t.offboard_jobs[id];
        lemma_stored_within(t, released(j, t.now, Status::Failed));
        lemma_stored_within(t, released(j, t.now, Status::Cancelled));
        if locally_applied(t, j, review) is Ok {
            let u = locally_applied(t, j, review)->Ok_0;
            lemma_queue_keeps_jobs(t, named_user(t, j.username)->0);
            lemma_stored_within(u, released(j, u.now, Status::Done));
        }
    }
}

proof fn lemma_queue_keeps_jobs(t: TxModel, user: UserModel)
    ensures
        disabled(t, user).offboard_jobs == t.offboard_jobs,
{
    let u = TxModel {
        users: t.users.insert(
            user.id,
            UserModel {
                enabled: false,
                epoch: if user.epoch == u64::MAX {
                    u64::MAX
                } else {
                    (user.epoch + 1) as u64
                },
                ..user
            },
        ),
        ..t
    };
    lemma_ended_keeps_jobs(u, in_order(u.rp_sessions.dom()), SelectionModel::User(user.id));
}

proof fn lemma_ended_keeps_jobs(t: TxModel, keys: Seq<Seq<char>>, s: SelectionModel)
    ensures
        ended_all(t, keys, s).offboard_jobs == t.offboard_jobs,
    decreases keys.len(),
{
    if keys.len() > 0 {
        lemma_ended_keeps_jobs(t, keys.drop_last(), s);
    }
}

/// What a job does. The worker that holds its lease disables the user, so that they cannot log in and
/// nothing that was issued to them stands, and tells every client; the job is then done.
pub proof fn executed_jobs_disable_the_user(
    t: TxModel,
    owner: Seq<char>,
    id: Seq<char>,
    review: ReviewModel,
    user: UserModel,
)
    requires
        owner_check(owner) is Ok,
        t.offboard_jobs.dom().contains(id),
        t.offboard_jobs[id].id == id,
        t.offboard_jobs[id].status == Status::Running,
        t.offboard_jobs[id].lease_owner == Some(owner),
        t.offboard_jobs[id].lease_until > t.now,
        !t.offboard_jobs[id].cancel_requested,
        named_user(t, t.offboard_jobs[id].username) == Some(user),
        user.id == t.offboard_jobs[id].user_id,
        !has_prefix(t.offboard_jobs[id].created_by, "agent:"@),
        t.users.dom().contains(t.offboard_jobs[id].created_by),
        t.users[t.offboard_jobs[id].created_by].enabled,
        t.users[t.offboard_jobs[id].created_by].admin,
        review.remaining is None,
        user.epoch < u64::MAX,
    ensures
        ({
            let out = committed(t, owner, id, BeforeCommit::Proceed, review);
            let j = out.0.offboard_jobs[id];
            let next = out.0.users[user.id];
            &&& out.1 == Ok::<JobModel, Failure>(j)
            &&& j.status == Status::Done && j.lease_owner is None && j.last_error is None
            &&& !next.enabled && next.epoch == user.epoch + 1
            &&& next == (UserModel { enabled: false, epoch: next.epoch, ..user })
            &&& forall|k: Seq<char>| k != user.id ==> #[trigger] out.0.users[k] == t.users[k]
            &&& out.0.audit.last().action == "offboard.execute"@
        }),
{
    let u = TxModel {
        users: t.users.insert(
            user.id,
            UserModel { enabled: false, epoch: (user.epoch + 1) as u64, ..user },
        ),
        ..t
    };
    lemma_ending_keeps_jobs(u, in_order(u.rp_sessions.dom()), SelectionModel::User(user.id));
}

proof fn lemma_ending_keeps_jobs(t: TxModel, keys: Seq<Seq<char>>, s: SelectionModel)
    ensures
        ended_all(t, keys, s).users == t.users,
        ended_all(t, keys, s).offboard_jobs == t.offboard_jobs,
        ended_all(t, keys, s).now == t.now,
    decreases keys.len(),
{
    if keys.len() > 0 {
        lemma_ending_keeps_jobs(t, keys.drop_last(), s);
    }
}

/// A job is due once its instant has come, and again where its worker let the lease run out, until it was
/// tried five times; one that is to be cancelled is not.
pub proof fn due_jobs_are_taken(t: TxModel, id: Seq<char>, owner: Seq<char>)
    requires
        t.offboard_jobs.dom().contains(id),
        t.offboard_jobs[id].id == id,
        owner_check(owner) is Ok,
        t.now + 60 <= u64::MAX,
        t.offboard_jobs[id].attempts < u32::MAX,
    ensures
        ({
            let j = t.offboard_jobs[id];
            let out = claimed_job(t, seq![id], owner);
            let next = out.0.offboard_jobs[id];
            &&& (out.1 matches Ok(Some(_))) <==> !j.cancel_requested && j.next_attempt <= t.now && ((
            j.status == Status::Scheduled && j.execute_at <= t.now) || (j.status == Status::Running
                && j.lease_until <= t.now && j.attempts < 5))
            &&& out.1 matches Ok(Some(k)) ==> k == next && next.status == Status::Running
                && next.lease_owner == Some(owner) && next.lease_until == t.now + 60
                && next.attempts == j.attempts + 1 && next.user_id == j.user_id
            &&& j.cancel_requested && j.status == Status::Scheduled ==> next.status
                == Status::Cancelled
            &&& !j.cancel_requested && j.status == Status::Running && j.lease_until <= t.now
                && j.attempts >= 5 ==> next.status == Status::Failed
            &&& out.0.users == t.users
        }),
{
    reveal_with_fuel(taken_job, 2);
    assert(seq![id].drop_last() =~= Seq::<Seq<char>>::empty());
    assert(seq![id].last() == id);
}

/// A failed attempt is made again later, half a minute after the first and twice as late after each
/// other, until the fifth, which ends the job.
pub proof fn failed_attempts_are_made_again(
    t: TxModel,
    owner: Seq<char>,
    id: Seq<char>,
    message: Seq<char>,
)
    requires
        t.offboard_jobs.dom().contains(id),
        t.offboard_jobs[id].id == id,
        t.offboard_jobs[id].status == Status::Running,
        t.offboard_jobs[id].lease_owner == Some(owner),
        t.now + 7680 <= u64::MAX,
    ensures
        ({
            let j = t.offboard_jobs[id];
            let next = retried(t, owner, id, message).offboard_jobs[id];
            &&& j.attempts >= 5 ==> next.status == Status::Failed
            &&& j.attempts < 5 ==> next.status == Status::Scheduled
            &&& j.attempts == 1 ==> next.next_attempt == t.now + 30
            &&& j.attempts == 2 ==> next.next_attempt == t.now + 60
            &&& j.attempts == 3 ==> next.next_attempt == t.now + 120
            &&& j.attempts == 4 ==> next.next_attempt == t.now + 240
            &&& next.lease_owner is None && next.attempts == j.attempts && next.last_error is Some
            &&& retried(t, owner, id, message).users == t.users
        }),
{
    reveal_with_fuel(power_of_two, 10);
}

/// A job is executed on the authority of whoever made it: an administrator who still is one, or an
/// agent that is still active and permitted, and never against an administrator.
pub proof fn jobs_need_a_standing_authority(t: TxModel, j: JobModel, user: UserModel, agent: AgentStandingModel)
    ensures
        !has_prefix(j.created_by, "agent:"@) ==> (authority_check(t, j, user, agent) is Ok
            <==> t.users.dom().contains(j.created_by) && t.users[j.created_by].enabled
            && t.users[j.created_by].admin),
        has_prefix(j.created_by, "agent:"@) ==> (authority_check(t, j, user, agent) is Ok <==> agent.known
            && agent.active && agent.permitted && !user.admin),
{
}

/// What is shown of an error is short, harmless and never empty.
pub proof fn shown_errors_are_short(m: Seq<char>)
    ensures
        0 < shown_error(m).len() <= 200,
        m.len() > 0 && m.len() <= 200 && !some_control(m) ==> shown_error(m) == m,
        forall|i: int| 0 <= i < shown_error(m).len() ==> !control(#[trigger] shown_error(m)[i]),
{
    reveal_strlit("Offboarding attempt failed");
    let f = plain_char();
    let s = m.filter(f);
    assert("Offboarding attempt failed"@.len() == 26);
    assert forall|i: int| 0 <= i < s.len() implies !control(#[trigger] s[i]) by {
        m.lemma_filter_pred(f, i);
    }
    if !some_control(m) {
        assert forall|i: int| 0 <= i < m.len() implies f(#[trigger] m[i]) by {
            assert(!control(m[i]));
        }
        lemma_all_plain(m);
    }
    assert forall|i: int| 0 <= i < shown_error(m).len() implies !control(#[trigger] shown_error(m)[i]) by {
        if s.len() > 0 {
            assert(shown_error(m)[i] == s[i]);
        }
    }
}

proof fn lemma_all_plain(m: Seq<char>)
    requires
        forall|i: int| 0 <= i < m.len() ==> plain_char()(#[trigger] m[i]),
    ensures
        m.filter(plain_char()) == m,
    decreases m.len(),
{
    reveal(Seq::filter);
    if m.len() > 0 {
        let w = m.drop_last();
        assert forall|i: int| 0 <= i < w.len() implies plain_char()(#[trigger] w[i]) by {
            assert(w[i] == m[i]);
        }
        lemma_all_plain(w);
        assert(plain_char()(m[m.len() - 1]));
        assert(w.push(m.last()) =~= m);
    } else {
        assert(m.filter(plain_char()) =~= m);
    }
}

} // verus!
