//! Provisioning jobs: which are kept, which is worked on next, and what an attempt leaves behind.
use crate::engine::{Core, Principal, PrincipalModel, audit, audited, backoff_seconds, drawn, extended, next_id, retry_delay};
use crate::error::{Error, Failure, agrees_with, code_of, fails};
use crate::names::{Names, ascending, in_order, lemma_lt_irreflexive, lemma_lt_total, lemma_lt_transitive};
use crate::offboarding::worker::{AgentStanding, AgentStandingModel};
use crate::outside::digest_of;
use crate::provisioning::{Job, JobModel, JobView, JobViewModel, Link, LinkModel, Plan, PlanModel, compact_terminal_job, compacted, job_shown, job_view, link_key, link_key_of, terminal};
use crate::store::{Tx, TxModel};
use crate::table::{Row, Table, distinct_keys, opt_view, purges_leave_what_does_not_match, views, without};
use crate::text::{has_prefix, opt_is, opt_text, same, same_opt, starts_with, text_lt, texts};
use vstd::prelude::*;
use vstd::string::*;

verus! {

/// The most jobs that are kept.
pub const MAX_RETAINED_JOBS: usize = 64;

/// The most bytes that the kept jobs take.
pub const MAX_RETAINED_JOB_BYTES: u64 = 33554432;

/// The sum of two sizes, or the largest size.
pub open spec fn capped(a: u64, b: u64) -> u64 {
    extended(a, b)
}

/// The size of a row, nothing where it is not known.
pub open spec fn size_of_row(sizes: Map<Seq<char>, u64>, k: Seq<char>) -> u64 {
    if sizes.dom().contains(k) {
        sizes[k]
    } else {
        0
    }
}

/// The size of all these rows, on top of `start`.
pub open spec fn total_size(sizes: Map<Seq<char>, u64>, keys: Seq<Seq<char>>, start: u64) -> u64
    decreases keys.len(),
{
    if keys.len() == 0 {
        start
    } else {
        capped(total_size(sizes, keys.drop_last(), start), size_of_row(sizes, keys.last()))
    }
}

pub fn row_size(sizes: &Table<u64>, key: &str) -> (r: u64)
    ensures
        r == size_of_row(sizes@, key@),
{
    match sizes.get(key) {
        Some(n) => *n,
        None => 0,
    }
}

pub fn sum_sizes(sizes: &Table<u64>, keys: &Names, start: u64) -> (r: u64)
    ensures
        r == total_size(sizes@, in_order(keys@), start),
{
    let ghost all = in_order(keys@);
    let n: usize = keys.len();
    let mut sum: u64 = start;
    let mut i: usize = 0;
    while i < n
        invariant
            i <= n,
            n == all.len(),
            all == in_order(keys@),
            sum == total_size(sizes@, all.take(i as int), start),
        decreases n - i,
    {
        proof {
            assert(all.take(i + 1).drop_last() =~= all.take(i as int));
        }
        sum = sum.saturating_add(row_size(sizes, keys.at(i).as_str()));
        i = i + 1;
    }
    assert(all.take(n as int) =~= all);
    sum
}

/// Every finished job without the bulk of its plan.
pub open spec fn compacted_all(m: Map<Seq<char>, JobModel>) -> Map<Seq<char>, JobModel> {
    m.map_values(|j: JobModel| compacted(j))
}

pub fn compact_jobs(jobs: &mut Table<Job>)
    ensures
        final(jobs)@ == compacted_all(old(jobs)@),
{
    let ghost m0 = jobs@;
    let ghost e0 = jobs.entries();
    let n: usize = jobs.len();
    let mut i: usize = 0;
    jobs.listing();
    while i < n
        invariant
            i <= n,
            n == e0.len(),
            jobs.entries().len() == n,
            distinct_keys(e0),
            forall|k: int| 0 <= k < n ==> (#[trigger] jobs.entries()[k]).0 == e0[k].0,
            forall|k: int|
                0 <= k < n ==> (#[trigger] jobs.entries()[k]).1 == if k < i {
                    compacted(e0[k].1)
                } else {
                    e0[k].1
                },
        decreases n - i,
    {
        let mut job = jobs.row_at(i).dup();
        compact_terminal_job(&mut job);
        jobs.set_row(i, job);
        i = i + 1;
    }
    jobs.listing();
    proof {
        assert forall|k: Seq<char>| jobs@.dom().contains(k) <==> #[trigger] m0.dom().contains(k) by {
            if m0.dom().contains(k) {
                let a = choose|a: int| 0 <= a < e0.len() && (#[trigger] e0[a]).0 == k;
                assert(jobs.entries()[a].0 == k);
            }
            if jobs@.dom().contains(k) {
                let a = choose|a: int|
                    0 <= a < jobs.entries().len() && (#[trigger] jobs.entries()[a]).0 == k;
                assert(e0[a].0 == k);
            }
        }
        assert forall|k: Seq<char>| #[trigger] m0.dom().contains(k) implies jobs@[k] == compacted(
            m0[k],
        ) by {
            let a = choose|a: int| 0 <= a < e0.len() && (#[trigger] e0[a]).0 == k;
            assert(jobs.entries()[a].0 == k);
        }
        assert(jobs@ =~= compacted_all(m0));
    }
}

/// Finished jobs go in the order in which their plans expire.
pub open spec fn goes_first(m: Map<Seq<char>, JobModel>, a: Seq<char>, b: Seq<char>) -> bool {
    m[a].plan.expires_at < m[b].plan.expires_at || (m[a].plan.expires_at == m[b].plan.expires_at
        && text_lt(a, b))
}

/// `k` is a finished job, and no finished job goes before it.
pub open spec fn is_oldest(m: Map<Seq<char>, JobModel>, k: Seq<char>) -> bool {
    m.dom().contains(k) && terminal(m[k]) && forall|j: Seq<char>|
        #![trigger m.dom().contains(j)]
        m.dom().contains(j) && terminal(m[j]) ==> !goes_first(m, j, k)
}

/// The finished job that goes first, if there is a finished job.
pub open spec fn oldest(m: Map<Seq<char>, JobModel>) -> Option<Seq<char>> {
    if exists|k: Seq<char>| is_oldest(m, k) {
        Some(choose|k: Seq<char>| is_oldest(m, k))
    } else {
        None
    }
}

proof fn lemma_oldest_unique(m: Map<Seq<char>, JobModel>, a: Seq<char>, b: Seq<char>)
    requires
        is_oldest(m, a),
        is_oldest(m, b),
    ensures
        a == b,
{
    assert(!goes_first(m, a, b));
    assert(!goes_first(m, b, a));
    lemma_lt_total(a, b);
}

fn find_oldest(jobs: &Table<Job>) -> (r: Option<String>)
    ensures
        opt_text(r) == oldest(jobs@),
{
    let keys = jobs.keys();
    keys.listing();
    let ghost all = in_order(keys@);
    let ghost m = jobs@;
    let n: usize = keys.len();
    let mut best: Option<String> = None;
    let mut at: u64 = 0;
    let mut i: usize = 0;
    while i < n
        invariant
            i <= n,
            n == all.len(),
            all == in_order(keys@),
            ascending(all),
            keys@ == m.dom(),
            m == jobs@,
            match best {
                None => forall|j: int| 0 <= j < i ==> !terminal(m[#[trigger] all[j]]),
                Some(b) => {
                    &&& m.dom().contains(b@)
                    &&& terminal(m[b@])
                    &&& at == m[b@].plan.expires_at
                    &&& exists|j: int| 0 <= j < i && #[trigger] all[j] == b@
                    &&& forall|j: int|
                        0 <= j < i && terminal(m[#[trigger] all[j]]) ==> !goes_first(m, all[j], b@)
                },
            },
        decreases n - i,
    {
        let key = keys.at(i);
        if let Some(job) = jobs.get(key.as_str()) {
            if job.completed || job.stale {
                let better = match &best {
                    None => true,
                    Some(_) => job.plan.expires_at < at,
                };
                proof {
                    lemma_lt_irreflexive(key@);
                    if best is Some {
                        let b = best->0@;
                        let j = choose|j: int| 0 <= j < i && #[trigger] all[j] == b;
                        assert(text_lt(all[j], all[i as int]));
                        lemma_lt_asymmetric(b, key@);
                    }
                }
                if better {
                    at = job.plan.expires_at;
                    best = Some(key.clone());
                    assert(all[i as int] == key@);
                }
            }
        }
        i = i + 1;
    }
    proof {
        assert forall|j: Seq<char>| #[trigger] m.dom().contains(j) implies exists|x: int|
            0 <= x < n && #[trigger] all[x] == j by {
            assert(all.contains(j));
            assert(all[all.index_of(j)] == j);
        }
        if best is None {
            assert forall|k: Seq<char>| !is_oldest(m, k) by {
                if is_oldest(m, k) {
                    let x = choose|x: int| 0 <= x < n && #[trigger] all[x] == k;
                    assert(!terminal(m[all[x]]));
                }
            }
        } else {
            let b = best->0@;
            assert forall|j: Seq<char>|
                #![trigger m.dom().contains(j)]
                m.dom().contains(j) && terminal(m[j]) implies !goes_first(m, j, b) by {
                let x = choose|x: int| 0 <= x < n && #[trigger] all[x] == j;
                assert(!goes_first(m, all[x], b));
            }
            assert(is_oldest(m, b));
            lemma_oldest_unique(m, b, oldest(m)->0);
        }
    }
    best
}

proof fn lemma_lt_asymmetric(a: Seq<char>, b: Seq<char>)
    requires
        text_lt(a, b),
    ensures
        !text_lt(b, a),
{
    if text_lt(b, a) {
        lemma_lt_transitive(a, b, a);
        lemma_lt_irreflexive(a);
    }
}

/// What is kept, and whether it is little enough: finished jobs go, with their plans, until at
/// most the allowed number of jobs and bytes is left.
pub open spec fn room_made(
    jobs: Map<Seq<char>, JobModel>,
    plans: Map<Seq<char>, PlanModel>,
    sizes: Map<Seq<char>, u64>,
    count: nat,
    bytes: u64,
) -> Option<(Map<Seq<char>, JobModel>, Map<Seq<char>, PlanModel>)>
    decreases count,
{
    if count <= MAX_RETAINED_JOBS && bytes <= MAX_RETAINED_JOB_BYTES {
        Some((jobs, plans))
    } else {
        match oldest(jobs) {
            None => None,
            Some(k) => if count == 0 {
                None
            } else {
                let n = size_of_row(sizes, k);
                room_made(
                    jobs.remove(k),
                    plans.remove(k),
                    sizes,
                    (count - 1) as nat,
                    if bytes >= n {
                        (bytes - n) as u64
                    } else {
                        0
                    },
                )
            },
        }
    }
}

/// The store with room for one more job of `bytes` bytes.
pub open spec fn with_room(t: TxModel, sizes: Map<Seq<char>, u64>, bytes: u64) -> Option<TxModel> {
    match room_made(
        compacted_all(t.provisioning_jobs),
        t.provisioning_plans,
        sizes,
        t.provisioning_jobs.dom().len() + 1,
        total_size(sizes, in_order(t.provisioning_jobs.dom()), bytes),
    ) {
        None => None,
        Some(p) => Some(TxModel { provisioning_jobs: p.0, provisioning_plans: p.1, ..t }),
    }
}

/// Makes room for a job of `bytes` bytes. `sizes` tells how many bytes each stored job takes once
/// it is compacted.
#[verifier::loop_isolation(false)]
pub fn ensure_job_capacity(tx: &mut Tx, sizes: &Table<u64>, bytes: u64) -> (r: Result<(), Error>)
    ensures
        match with_room(old(tx)@, sizes@, bytes) {
            Some(t) => final(tx)@ == t && r is Ok,
            None => final(tx)@ == old(tx)@ && fails(
                r,
                Failure::Bad(
                    "Too many active SCIM jobs; complete existing work before applying another plan"@,
                ),
            ),
        },
{
    let ghost t0 = tx@;
    let keys = tx.provisioning_jobs.keys();
    keys.listing();
    let mut jobs = tx.provisioning_jobs.dup();
    compact_jobs(&mut jobs);
    let mut plans = tx.provisioning_plans.dup();
    let mut retained: u64 = sum_sizes(sizes, &keys, bytes);
    let mut count: u64 = keys.len() as u64;
    let mut full: bool = count >= 64 || retained > MAX_RETAINED_JOB_BYTES;
    let ghost want = room_made(
        compacted_all(t0.provisioning_jobs),
        t0.provisioning_plans,
        sizes@,
        t0.provisioning_jobs.dom().len() + 1,
        total_size(sizes@, in_order(t0.provisioning_jobs.dom()), bytes),
    );
    jobs.listing();
    assert(jobs@.dom() =~= t0.provisioning_jobs.dom());
    while full
        invariant
            want == room_made(jobs@, plans@, sizes@, (count + 1) as nat, retained),
            full == (count >= 64 || retained > MAX_RETAINED_JOB_BYTES),
            jobs@.dom().finite(),
            count == jobs@.dom().len(),
            tx@ == t0,
        decreases count,
    {
        let key = match find_oldest(&jobs) {
            None => {
                return Err(
                    Error::bad(
                        "Too many active SCIM jobs; complete existing work before applying another plan",
                    ),
                );
            },
            Some(k) => k,
        };
        proof {
            assert(is_oldest(jobs@, key@));
            assert(jobs@.dom().contains(key@));
            assert(jobs@.remove(key@).dom() =~= jobs@.dom().remove(key@));
            assert(count >= 1);
        }
        let n = row_size(sizes, key.as_str());
        jobs.delete(key.as_str());
        plans.delete(key.as_str());
        retained = retained.saturating_sub(n);
        count = count - 1;
        full = count >= 64 || retained > MAX_RETAINED_JOB_BYTES;
    }
    tx.provisioning_jobs = jobs;
    tx.provisioning_plans = plans;
    Ok(())
}

/// Only finished jobs make room: whatever is worked on stays.
pub proof fn unfinished_jobs_are_kept(
    jobs: Map<Seq<char>, JobModel>,
    plans: Map<Seq<char>, PlanModel>,
    sizes: Map<Seq<char>, u64>,
    count: nat,
    bytes: u64,
    k: Seq<char>,
)
    requires
        room_made(jobs, plans, sizes, count, bytes) is Some,
        jobs.dom().contains(k),
        !terminal(jobs[k]),
    ensures
        ({
            let kept = (room_made(jobs, plans, sizes, count, bytes)->0).0;
            kept.dom().contains(k) && kept[k] == jobs[k]
        }),
        plans.dom().contains(k) ==> (room_made(jobs, plans, sizes, count, bytes)->0).1.dom().contains(k),
    decreases count,
{
    if !(count <= MAX_RETAINED_JOBS && bytes <= MAX_RETAINED_JOB_BYTES) {
        let o = oldest(jobs)->0;
        assert(is_oldest(jobs, o));
        let n = size_of_row(sizes, o);
        unfinished_jobs_are_kept(
            jobs.remove(o),
            plans.remove(o),
            sizes,
            (count - 1) as nat,
            if bytes >= n {
                (bytes - n) as u64
            } else {
                0
            },
            k,
        );
    }
}

/// A job of the target that is not finished.
pub open spec fn working_on(m: Map<Seq<char>, JobModel>, target: Seq<char>) -> bool {
    exists|k: Seq<char>| #[trigger] m.dom().contains(k) && m[k].plan.target == target && !terminal(m[k])
}

fn is_working_on(jobs: &Table<Job>, target: &str) -> (r: bool)
    ensures
        r == working_on(jobs@, target@),
{
    jobs.listing();
    let n: usize = jobs.len();
    let mut i: usize = 0;
    while i < n
        invariant
            i <= n,
            n == jobs.entries().len(),
            forall|k: int|
                0 <= k < i ==> (#[trigger] jobs.entries()[k]).1.plan.target != target@ || terminal(
                    jobs.entries()[k].1,
                ),
        decreases n - i,
    {
        jobs.listing();
        let job = jobs.row_at(i);
        if same(job.plan.target.as_str(), target) && !job.completed && !job.stale {
            proof {
                let e = jobs.entries()[i as int];
                assert(jobs@.dom().contains(e.0));
            }
            return true;
        }
        i = i + 1;
    }
    jobs.listing();
    proof {
        if working_on(jobs@, target@) {
            let k = choose|k: Seq<char>| #[trigger]
                jobs@.dom().contains(k) && jobs@[k].plan.target == target@ && !terminal(jobs@[k]);
            let a = choose|a: int|
                0 <= a < jobs.entries().len() && (#[trigger] jobs.entries()[a]).0 == k;
            assert(jobs.entries()[a].1 == jobs@[k]);
        }
    }
    false
}

/// The job that an approved plan starts as.
pub open spec fn new_job(p: PlanModel, now: u64) -> JobModel {
    JobModel {
        total: p.resources.len() as usize,
        plan: p,
        cursor: 0,
        completed: false,
        stale: false,
        next_attempt: now,
        attempts: 0,
        lease: None,
        error: None,
    }
}

/// What applying a plan does. `targets` are the targets that the actor may synchronise, and
/// `fingerprint` is that of the plan's target where it is configured.
pub open spec fn applied(
    t: TxModel,
    actor: PrincipalModel,
    id: Seq<char>,
    targets: Set<Seq<char>>,
    fingerprint: Option<Seq<char>>,
    sizes: Map<Seq<char>, u64>,
    bytes: u64,
) -> (TxModel, Result<JobViewModel, Failure>) {
    if t.provisioning_jobs.dom().contains(id) {
        let j = t.provisioning_jobs[id];
        if !targets.contains(j.plan.target) || actor.id != j.plan.actor {
            (t, Err(Failure::Forbidden))
        } else {
            (t, Ok(job_shown(j)))
        }
    } else if !t.provisioning_plans.dom().contains(id) {
        (t, Err(Failure::Missing("Provisioning plan not found"@)))
    } else {
        let p = t.provisioning_plans[id];
        if !targets.contains(p.target) || actor.id != p.actor || fingerprint is None {
            (t, Err(Failure::Forbidden))
        } else if p.expires_at <= t.now || p.revision != t.revision || fingerprint != Some(
            p.target_fingerprint,
        ) {
            (t, Err(Failure::Conflict("Provisioning plan expired or configuration changed"@)))
        } else if working_on(t.provisioning_jobs, p.target) {
            (
                t,
                Err(
                    Failure::Conflict("Target already has an unfinished job; inspect or retry it"@),
                ),
            )
        } else {
            match with_room(t, sizes, bytes) {
                None => (
                    t,
                    Err(
                        Failure::Bad(
                            "Too many active SCIM jobs; complete existing work before applying another plan"@,
                        ),
                    ),
                ),
                Some(u) => {
                    let j = new_job(p, t.now);
                    (
                        audited(
                            TxModel {
                                provisioning_jobs: u.provisioning_jobs.insert(id, j),
                                ..u
                            },
                            actor.id,
                            "provisioner.apply"@,
                            p.target,
                        ),
                        Ok(job_shown(j)),
                    )
                },
            }
        }
    }
}

impl Core {
    /// Starts the job of an approved plan. A plan that was applied before gives its job.
    pub fn provisioning_apply(
        &self,
        tx: &mut Tx,
        actor: &Principal,
        id: &str,
        targets: &Names,
        fingerprint: &Option<String>,
        sizes: &Table<u64>,
        bytes: u64,
    ) -> (r: Result<JobView, Error>)
        ensures
            ({
                let out = applied(
                    old(tx)@,
                    actor@,
                    id@,
                    targets@,
                    opt_text(*fingerprint),
                    sizes@,
                    bytes,
                );
                final(tx)@ == out.0 && agrees_with(r, out.1)
            }),
    {
        if let Some(job) = tx.provisioning_jobs.get(id) {
            if !targets.contains(job.plan.target.as_str()) || !same(
                actor.id.as_str(),
                job.plan.actor.as_str(),
            ) {
                return Err(Error::Forbidden);
            }
            return Ok(job_view(job));
        }
        let plan = match tx.provisioning_plans.get(id) {
            None => return Err(Error::missing("Provisioning plan not found")),
            Some(p) => p.dup(),
        };
        if !targets.contains(plan.target.as_str()) || !same(
            actor.id.as_str(),
            plan.actor.as_str(),
        ) || fingerprint.is_none() {
            return Err(Error::Forbidden);
        }
        if plan.expires_at <= tx.now || plan.revision != tx.revision || !opt_is(
            fingerprint,
            plan.target_fingerprint.as_str(),
        ) {
            return Err(Error::conflict("Provisioning plan expired or configuration changed"));
        }
        if is_working_on(&tx.provisioning_jobs, plan.target.as_str()) {
            return Err(
                Error::conflict("Target already has an unfinished job; inspect or retry it"),
            );
        }
        if let Err(e) = ensure_job_capacity(tx, sizes, bytes) {
            return Err(e);
        }
        let target = plan.target.clone();
        assert(views(plan.resources@).len() == plan.resources.len());
        let job = Job {
            total: plan.resources.len(),
            plan,
            cursor: 0,
            completed: false,
            stale: false,
            next_attempt: tx.now,
            attempts: 0,
            lease: None,
            error: None,
        };
        let view = job_view(&job);
        tx.provisioning_jobs.put(id, job);
        audit(tx, actor.id.as_str(), "provisioner.apply", target.as_str());
        Ok(view)
    }
}

/// Applying a plan twice starts one job: the second call shows the first one's job and changes
/// nothing.
pub proof fn plans_are_applied_once(
    t: TxModel,
    actor: PrincipalModel,
    id: Seq<char>,
    targets: Set<Seq<char>>,
    fingerprint: Option<Seq<char>>,
    sizes: Map<Seq<char>, u64>,
    bytes: u64,
)
    requires
        applied(t, actor, id, targets, fingerprint, sizes, bytes).1 is Ok,
    ensures
        ({
            let one = applied(t, actor, id, targets, fingerprint, sizes, bytes);
            applied(one.0, actor, id, targets, fingerprint, sizes, bytes) == (one.0, one.1)
        }),
{
}

/// What the claim of a job makes of it: `None` where it is not to be worked on and stays.
pub open spec fn claimed(
    t: TxModel,
    j: JobModel,
    permitted: bool,
    fingerprint: Option<Seq<char>>,
) -> Option<(JobModel, bool)> {
    if terminal(j) || j.next_attempt > t.now {
        None
    } else if !permitted || j.plan.revision != t.revision || fingerprint != Some(
        j.plan.target_fingerprint,
    ) || extended(j.plan.expires_at, 86400) < t.now {
        Some(
            (
                compacted(
                    JobModel {
                        stale: true,
                        error: Some(
                            "Plan authority or source configuration changed; inspect partial results and create a new plan"@,
                        ),
                        ..j
                    },
                ),
                false,
            ),
        )
    } else {
        Some(
            (
                JobModel {
                    next_attempt: extended(t.now, 60),
                    attempts: if j.attempts == u32::MAX {
                        u32::MAX
                    } else {
                        (j.attempts + 1) as u32
                    },
                    lease: Some(next_id(t)),
                    ..j
                },
                true,
            ),
        )
    }
}

/// The first job among `keys` that is to be worked on, with the store after the jobs that went
/// stale were marked and that one was leased.
pub open spec fn claim_scan(
    t: TxModel,
    keys: Seq<Seq<char>>,
    permitted: Set<Seq<char>>,
    fingerprints: Map<Seq<char>, Seq<char>>,
) -> (TxModel, Option<JobModel>)
    decreases keys.len(),
{
    if keys.len() == 0 {
        (t, None)
    } else {
        let before = claim_scan(t, keys.drop_last(), permitted, fingerprints);
        let k = keys.last();
        if before.1 is Some || !before.0.provisioning_jobs.dom().contains(k) {
            before
        } else {
            let j = before.0.provisioning_jobs[k];
            let fingerprint = if fingerprints.dom().contains(j.plan.target) {
                Some(fingerprints[j.plan.target])
            } else {
                None
            };
            match claimed(before.0, j, permitted.contains(k), fingerprint) {
                None => before,
                Some(p) => {
                    let u = TxModel {
                        provisioning_jobs: before.0.provisioning_jobs.insert(k, p.0),
                        ..before.0
                    };
                    if p.1 {
                        (drawn(u), Some(p.0))
                    } else {
                        (u, None)
                    }
                },
            }
        }
    }
}

proof fn lemma_claim_found(
    t: TxModel,
    keys: Seq<Seq<char>>,
    permitted: Set<Seq<char>>,
    fingerprints: Map<Seq<char>, Seq<char>>,
    n: int,
)
    requires
        0 <= n <= keys.len(),
        claim_scan(t, keys.take(n), permitted, fingerprints).1 is Some,
    ensures
        claim_scan(t, keys, permitted, fingerprints) == claim_scan(
            t,
            keys.take(n),
            permitted,
            fingerprints,
        ),
    decreases keys.len() - n,
{
    if n < keys.len() {
        assert(keys.take(n + 1).drop_last() =~= keys.take(n));
        lemma_claim_found(t, keys, permitted, fingerprints, n + 1);
    } else {
        assert(keys.take(n) =~= keys);
    }
}

impl Core {
    /// Leases the first of the due jobs that is still to be worked on. `permitted` are the jobs
    /// whose actor may still synchronise, `fingerprints` those of the configured targets.
    #[verifier::loop_isolation(false)]
    pub fn claim_provisioning(
        &self,
        tx: &mut Tx,
        due: &Vec<String>,
        permitted: &Names,
        fingerprints: &Table<String>,
    ) -> (r: Option<Job>)
        ensures
            ({
                let out = claim_scan(old(tx)@, texts(due@), permitted@, fingerprints@);
                final(tx)@ == out.0 && opt_view(r) == out.1
            }),
    {
        let ghost t0 = tx@;
        let ghost all = texts(due@);
        let n: usize = due.len();
        let mut i: usize = 0;
        assert(all.take(0) =~= Seq::<Seq<char>>::empty());
        while i < n
            invariant
                i <= n,
                claim_scan(t0, all.take(i as int), permitted@, fingerprints@) == (
                    tx@,
                    None::<JobModel>,
                ),
            decreases n - i,
        {
            proof {
                assert(all.take(i + 1).drop_last() =~= all.take(i as int));
                assert(all.take(i + 1).last() == due@[i as int]@);
            }
            let key = due[i].as_str();
            if let Some(found) = tx.provisioning_jobs.get(key) {
                let mut job = found.dup();
                if !job.completed && !job.stale && job.next_attempt <= tx.now {
                    let configured = match fingerprints.get(job.plan.target.as_str()) {
                        Some(f) => same(f.as_str(), job.plan.target_fingerprint.as_str()),
                        None => false,
                    };
                    if !permitted.contains(key) || job.plan.revision != tx.revision || !configured
                        || job.plan.expires_at.saturating_add(86400) < tx.now {
                        job.stale = true;
                        job.error = Some(
                            "Plan authority or source configuration changed; inspect partial results and create a new plan".to_owned(),
                        );
                        compact_terminal_job(&mut job);
                        tx.provisioning_jobs.put(key, job);
                    } else {
                        job.next_attempt = tx.now.saturating_add(60);
                        job.attempts = job.attempts.saturating_add(1);
                        let lease = tx.id();
                        job.lease = Some(lease);
                        let out = job.dup();
                        tx.provisioning_jobs.put(key, job);
                        proof {
                            lemma_claim_found(t0, all, permitted@, fingerprints@, i + 1);
                        }
                        return Some(out);
                    }
                }
            }
            i = i + 1;
        }
        assert(all.take(n as int) =~= all);
        None
    }
}

/// The attempt that the lease was given for is still the latest.
pub open spec fn holds_lease(t: TxModel, j: JobModel) -> bool {
    t.provisioning_jobs.dom().contains(j.plan.id) && t.provisioning_jobs[j.plan.id].lease == j.lease
}

/// A job after its resource was delivered.
pub open spec fn stepped(t: TxModel, j: JobModel, permitted: bool) -> JobModel {
    let cursor = if j.cursor < j.plan.resources.len() {
        (j.cursor + 1) as usize
    } else {
        j.plan.resources.len() as usize
    };
    let next = JobModel {
        cursor,
        completed: cursor == j.plan.resources.len(),
        lease: None,
        error: None,
        next_attempt: t.now,
        attempts: 0,
        ..j
    };
    compacted(
        if j.plan.revision != t.revision || !permitted {
            JobModel {
                stale: true,
                completed: false,
                error: Some(
                    "Source or authority changed during delivery; inspect partial results and replan"@,
                ),
                ..next
            }
        } else {
            next
        },
    )
}

/// The store after a delivery of `j` succeeded.
pub open spec fn finished(t: TxModel, j: JobModel, link: Option<LinkModel>, permitted: bool) -> TxModel {
    if !holds_lease(t, j) {
        t
    } else {
        let next = stepped(t, t.provisioning_jobs[j.plan.id], permitted);
        let u = TxModel {
            provisioning_links: match link {
                Some(l) => t.provisioning_links.insert(
                    link_key_of(l.target, l.kind, l.local_id),
                    l,
                ),
                None => t.provisioning_links,
            },
            provisioning_jobs: t.provisioning_jobs.insert(j.plan.id, next),
            ..t
        };
        if next.completed {
            audited(u, next.plan.actor, "provisioner.complete"@, next.plan.target)
        } else {
            u
        }
    }
}

/// Whether whoever has the id `actor` may have a job delivered.
pub open spec fn author_stands(t: TxModel, actor: Seq<char>, agent: AgentStandingModel) -> bool {
    if has_prefix(actor, "agent:"@) {
        agent.known && agent.active && agent.permitted
    } else {
        t.users.dom().contains(actor) && t.users[actor].enabled && t.users[actor].admin
    }
}

/// The store after a delivery of `j` failed.
pub open spec fn put_back(t: TxModel, j: JobModel, code: Seq<char>) -> TxModel {
    if !holds_lease(t, j) {
        t
    } else {
        let was = t.provisioning_jobs[j.plan.id];
        TxModel {
            provisioning_jobs: t.provisioning_jobs.insert(
                j.plan.id,
                JobModel {
                    lease: None,
                    error: Some(code),
                    next_attempt: extended(t.now, backoff_seconds(was.attempts)),
                    ..was
                },
            ),
            ..t
        }
    }
}

fn leases_agree(tx: &Tx, job: &Job) -> (r: bool)
    ensures
        r == holds_lease(tx@, job@),
{
    match tx.provisioning_jobs.get(job.plan.id.as_str()) {
        Some(current) => same_opt(&current.lease, &job.lease),
        None => false,
    }
}

impl Core {
    /// Notes that the job's resource was delivered. `permitted` tells whether the job's actor may
    /// still synchronise its target.
    pub fn finish_provisioning(&self, tx: &mut Tx, job: &Job, link: Option<Link>, permitted: bool)
        ensures
            final(tx)@ == finished(old(tx)@, job@, opt_view(link), permitted),
    {
        if !leases_agree(tx, job) {
            return;
        }
        let id = job.plan.id.as_str();
        let mut current = match tx.provisioning_jobs.get(id) {
            Some(c) => c.dup(),
            None => return,
        };
        if let Some(l) = link {
            let key = link_key(l.target.as_str(), l.kind.as_str(), l.local_id.as_str());
            tx.provisioning_links.put(key.as_str(), l);
        }
        let n: usize = current.plan.resources.len();
        assert(views(current.plan.resources@).len() == n);
        current.cursor = if current.cursor < n {
            current.cursor + 1
        } else {
            n
        };
        current.completed = current.cursor == n;
        current.lease = None;
        current.error = None;
        current.next_attempt = tx.now;
        current.attempts = 0;
        if current.plan.revision != tx.revision || !permitted {
            current.stale = true;
            current.completed = false;
            current.error = Some(
                "Source or authority changed during delivery; inspect partial results and replan".to_owned(),
            );
        }
        compact_terminal_job(&mut current);
        let done = current.completed;
        let actor = current.plan.actor.clone();
        let target = current.plan.target.clone();
        tx.provisioning_jobs.put(id, current);
        if done {
            audit(tx, actor.as_str(), "provisioner.complete", target.as_str());
        }
    }

    /// Whether the author of a job may still have it delivered: an administrator who is enabled, or an
    /// agent that is known, active and permitted to synchronize the target.
    pub fn author_permitted(&self, tx: &Tx, job: &Job, agent: &AgentStanding) -> (r: bool)
        ensures
            r == author_stands(tx@, job@.plan.actor, agent@),
    {
        let id = job.plan.actor.as_str();
        if starts_with(id, "agent:") {
            return agent.known && agent.active && agent.permitted;
        }
        match tx.users.get(id) {
            Some(u) => u.enabled && u.admin,
            None => false,
        }
    }

    /// Notes by its code that the delivery failed, and when to try again. An error that names no
    /// code of its own is noted as `other`.
    pub fn fail_provisioning(&self, tx: &mut Tx, job: &Job, error: &Error, other: &str)
        ensures
            final(tx)@ == put_back(old(tx)@, job@, code_of(error@, other@)),
    {
        if !leases_agree(tx, job) {
            return;
        }
        let id = job.plan.id.as_str();
        let mut current = match tx.provisioning_jobs.get(id) {
            Some(c) => c.dup(),
            None => return,
        };
        current.lease = None;
        current.error = Some(error.code(other));
        current.next_attempt = tx.now.saturating_add(retry_delay(current.attempts));
        tx.provisioning_jobs.put(id, current);
    }
}

/// An attempt whose lease was given up or taken over changes nothing.
pub proof fn late_attempts_change_nothing(
    t: TxModel,
    j: JobModel,
    link: Option<LinkModel>,
    permitted: bool,
    code: Seq<char>,
)
    requires
        j.lease is Some,
        holds_lease(t, j),
    ensures
        finished(finished(t, j, link, permitted), j, link, permitted) == finished(
            t,
            j,
            link,
            permitted,
        ),
        put_back(finished(t, j, link, permitted), j, code) == finished(t, j, link, permitted),
        finished(put_back(t, j, code), j, link, permitted) == put_back(t, j, code),
{
}

/// The plan expired more than a week ago.
pub open spec fn plan_over(at: u64) -> spec_fn(PlanModel) -> bool {
    |p: PlanModel| extended(p.expires_at, 604800) < at
}

/// The job ended, more than a week after its plan expired.
pub open spec fn job_over(at: u64) -> spec_fn(JobModel) -> bool {
    |j: JobModel| terminal(j) && extended(j.plan.expires_at, 604800) < at
}

fn is_plan_over(p: &Plan, at: u64) -> (b: bool)
    ensures
        b == plan_over(at)(p@),
{
    p.expires_at.saturating_add(604800) < at
}

fn is_job_over(j: &Job, at: u64) -> (b: bool)
    ensures
        b == job_over(at)(j@),
{
    (j.completed || j.stale) && j.plan.expires_at.saturating_add(604800) < at
}

/// Drops plans and finished jobs a week after they expired, and compacts the finished ones.
pub fn cleanup(tx: &mut Tx, at: u64)
    ensures
        final(tx)@ == (TxModel {
            provisioning_plans: without(old(tx)@.provisioning_plans, plan_over(at)),
            provisioning_jobs: compacted_all(without(old(tx)@.provisioning_jobs, job_over(at))),
            ..old(tx)@
        }),
{
    tx.provisioning_plans.purge(at, is_plan_over, Ghost(plan_over(at)));
    tx.provisioning_jobs.purge(at, is_job_over, Ghost(job_over(at)));
    compact_jobs(&mut tx.provisioning_jobs);
}

/// The jobs of these targets, in the order of their ids.
pub open spec fn jobs_listed(
    m: Map<Seq<char>, JobModel>,
    keys: Seq<Seq<char>>,
    targets: Set<Seq<char>>,
) -> Seq<JobViewModel>
    decreases keys.len(),
{
    if keys.len() == 0 {
        Seq::empty()
    } else {
        let rest = jobs_listed(m, keys.drop_last(), targets);
        let j = m[keys.last()];
        if targets.contains(j.plan.target) {
            rest.push(job_shown(j))
        } else {
            rest
        }
    }
}

impl Core {
    /// The jobs of the targets that the caller may read.
    #[verifier::loop_isolation(false)]
    pub fn provisioning_jobs(&self, tx: &Tx, targets: &Names) -> (r: Vec<JobView>)
        ensures
            views(r@) == jobs_listed(
                tx@.provisioning_jobs,
                in_order(tx@.provisioning_jobs.dom()),
                targets@,
            ),
    {
        let keys = tx.provisioning_jobs.keys();
        let ghost all = in_order(keys@);
        let n: usize = keys.len();
        let mut out: Vec<JobView> = Vec::new();
        let mut i: usize = 0;
        assert(views(out@) =~= Seq::<JobViewModel>::empty());
        while i < n
            invariant
                i <= n,
                views(out@) == jobs_listed(tx@.provisioning_jobs, all.take(i as int), targets@),
            decreases n - i,
        {
            proof {
                assert(all.take(i + 1).drop_last() =~= all.take(i as int));
            }
            if let Some(job) = tx.provisioning_jobs.get(keys.at(i).as_str()) {
                if targets.contains(job.plan.target.as_str()) {
                    let ghost was = views(out@);
                    let v = job_view(job);
                    let ghost vm = v@;
                    out.push(v);
                    assert(views(out@) =~= was.push(vm));
                }
            }
            i = i + 1;
        }
        assert(all.take(n as int) =~= all);
        out
    }

    /// The plan, for the actor who made it.
    pub fn provisioning_plan_get(&self, tx: &Tx, principal: &Principal, id: &str, targets: &Names) -> (r: Result<
        Plan,
        Error,
    >)
        ensures
            agrees_with(
                r,
                if !tx@.provisioning_plans.dom().contains(id@) {
                    Err(Failure::Missing("Provisioning plan not found"@))
                } else if !targets@.contains(tx@.provisioning_plans[id@].target) || principal@.id
                    != tx@.provisioning_plans[id@].actor {
                    Err(Failure::Forbidden)
                } else {
                    Ok(tx@.provisioning_plans[id@])
                },
            ),
    {
        match tx.provisioning_plans.get(id) {
            None => Err(Error::missing("Provisioning plan not found")),
            Some(p) => {
                if !targets.contains(p.target.as_str()) || !same(
                    principal.id.as_str(),
                    p.actor.as_str(),
                ) {
                    Err(Error::Forbidden)
                } else {
                    Ok(p.dup())
                }
            },
        }
    }
}

/// A plan is applied by whoever made it, while it stands: in time, with the configuration and the target
/// that it was made for, where no other work for the target is left, and there is room. Its job then
/// starts with the first resource.
pub proof fn standing_plans_are_applied(
    t: TxModel,
    actor: PrincipalModel,
    id: Seq<char>,
    targets: Set<Seq<char>>,
    fingerprint: Option<Seq<char>>,
    sizes: Map<Seq<char>, u64>,
    bytes: u64,
)
    requires
        !t.provisioning_jobs.dom().contains(id),
        t.provisioning_plans.dom().contains(id),
        with_room(t, sizes, bytes) is Some,
    ensures
        ({
            let p = t.provisioning_plans[id];
            let out = applied(t, actor, id, targets, fingerprint, sizes, bytes);
            let j = out.0.provisioning_jobs[id];
            &&& out.1 is Ok <==> {
                &&& targets.contains(p.target) && actor.id == p.actor
                &&& p.expires_at > t.now && p.revision == t.revision
                &&& fingerprint == Some(p.target_fingerprint)
                &&& !working_on(t.provisioning_jobs, p.target)
            }
            &&& out.1 is Ok ==> {
                &&& j.plan == p && j.cursor == 0 && !j.completed && !j.stale
                &&& j.next_attempt == t.now && j.attempts == 0 && j.lease is None && j.error is None
                &&& out.0.provisioning_jobs.dom().contains(id)
            }
        }),
{
}

/// Whoever takes a job that is due holds it for a minute; a job whose author has lost the right, or whose
/// source has changed, or that is a day late, goes stale instead.
pub proof fn due_jobs_are_claimed(
    t: TxModel,
    j: JobModel,
    permitted: bool,
    fingerprint: Option<Seq<char>>,
)
    requires
        t.now + 60 <= u64::MAX,
        j.plan.expires_at + 86400 <= u64::MAX,
        j.attempts < u32::MAX,
    ensures
        ({
            let out = claimed(t, j, permitted, fingerprint);
            let stands = permitted && j.plan.revision == t.revision && fingerprint == Some(
                j.plan.target_fingerprint,
            ) && j.plan.expires_at + 86400 >= t.now;
            &&& out is Some <==> !j.completed && !j.stale && j.next_attempt <= t.now
            &&& out is Some && stands ==> (out->0).1 && (out->0).0.lease == Some(next_id(t)) && (
            out->0).0.next_attempt == t.now + 60 && (out->0).0.attempts == j.attempts + 1 && (
            out->0).0.plan == j.plan && (out->0).0.cursor == j.cursor && !(out->0).0.stale
            &&& out is Some && !stands ==> !(out->0).1 && (out->0).0.stale && (out->0).0.error is Some
                && (out->0).0.plan.resources.len() == 0
        }),
{
}

/// A delivered resource moves its job on by one, and the last completes it; what was delivered is
/// linked.
pub proof fn delivered_resources_move_the_job_on(t: TxModel, j: JobModel, link: LinkModel)
    requires
        t.provisioning_jobs.dom().contains(j.plan.id),
        t.provisioning_jobs[j.plan.id].lease == j.lease,
        t.provisioning_jobs[j.plan.id].plan.revision == t.revision,
        t.provisioning_jobs[j.plan.id].cursor < t.provisioning_jobs[j.plan.id].plan.resources.len(),
        t.provisioning_jobs[j.plan.id].plan.resources.len() <= usize::MAX,
        !t.provisioning_jobs[j.plan.id].stale,
    ensures
        ({
            let was = t.provisioning_jobs[j.plan.id];
            let u = finished(t, j, Some(link), true);
            let next = u.provisioning_jobs[j.plan.id];
            &&& next.cursor == was.cursor + 1
            &&& next.completed <==> was.cursor + 1 == was.plan.resources.len()
            &&& !next.stale && next.lease is None && next.error is None && next.attempts == 0
            &&& next.next_attempt == t.now
            &&& !next.completed ==> next.plan == was.plan
            &&& u.provisioning_links[digest_of(
                link.target + "\0"@ + link.kind + "\0"@ + link.local_id,
            )] == link
            &&& next.completed ==> u.audit.last().action == "provisioner.complete"@
        }),
        ({
            let was = t.provisioning_jobs[j.plan.id];
            let next = finished(t, j, Some(link), false).provisioning_jobs[j.plan.id];
            next.stale && !next.completed && next.error is Some
        }),
{
}

/// A failed delivery is tried again later, from the same resource.
pub proof fn failed_deliveries_are_tried_again(t: TxModel, j: JobModel, code: Seq<char>)
    requires
        t.provisioning_jobs.dom().contains(j.plan.id),
        t.provisioning_jobs[j.plan.id].lease == j.lease,
        t.now + 3600 <= u64::MAX,
    ensures
        ({
            let was = t.provisioning_jobs[j.plan.id];
            let next = put_back(t, j, code).provisioning_jobs[j.plan.id];
            &&& next.lease is None && next.error == Some(code)
            &&& next.next_attempt > t.now && next.next_attempt <= t.now + 3600
            &&& next.cursor == was.cursor && next.plan == was.plan && next.completed == was.completed
        }),
{
    reveal_with_fuel(crate::engine::power_of_two, 13);
}

/// The list shows the jobs of the targets that may be seen, and no others.
pub proof fn listed_jobs_are_of_visible_targets(
    m: Map<Seq<char>, JobModel>,
    keys: Seq<Seq<char>>,
    targets: Set<Seq<char>>,
    v: JobViewModel,
)
    ensures
        jobs_listed(m, keys, targets).contains(v) <==> exists|i: int|
            0 <= i < keys.len() && targets.contains(m[#[trigger] keys[i]].plan.target) && v == job_shown(
                m[keys[i]],
            ),
    decreases keys.len(),
{
    if keys.len() > 0 {
        let d = keys.drop_last();
        let rest = jobs_listed(m, d, targets);
        let all = jobs_listed(m, keys, targets);
        listed_jobs_are_of_visible_targets(m, d, targets, v);
        if all.contains(v) {
            let k = all.index_of(v);
            if k < rest.len() {
                assert(rest[k] == v);
                let i = choose|i: int|
                    0 <= i < d.len() && targets.contains(m[#[trigger] d[i]].plan.target) && v == job_shown(
                        m[d[i]],
                    );
                assert(keys[i] == d[i]);
            } else {
                assert(keys[keys.len() - 1] == keys.last());
            }
        }
        if exists|i: int|
            0 <= i < keys.len() && targets.contains(m[#[trigger] keys[i]].plan.target) && v == job_shown(
                m[keys[i]],
            ) {
            let i = choose|i: int|
                0 <= i < keys.len() && targets.contains(m[#[trigger] keys[i]].plan.target) && v == job_shown(
                    m[keys[i]],
                );
            if i < d.len() {
                assert(d[i] == keys[i]);
                assert(rest.contains(v));
                assert(all[rest.index_of(v)] == v);
            } else {
                assert(all[rest.len() as int] == v);
            }
        }
    }
}

/// Plans are forgotten a week after they end, and jobs too if they are finished.
pub proof fn old_plans_are_forgotten(t: TxModel, at: u64, k: Seq<char>)
    requires
        t.provisioning_plans.dom().contains(k) ==> t.provisioning_plans[k].expires_at <= u64::MAX - 604800,
        t.provisioning_jobs.dom().contains(k) ==> t.provisioning_jobs[k].plan.expires_at <= u64::MAX - 604800,
    ensures
        without(t.provisioning_plans, plan_over(at)).dom().contains(k) <==> t.provisioning_plans.dom().contains(
            k,
        ) && at <= t.provisioning_plans[k].expires_at + 604800,
        without(t.provisioning_jobs, job_over(at)).dom().contains(k) <==> t.provisioning_jobs.dom().contains(k)
            && (!terminal(t.provisioning_jobs[k]) || at <= t.provisioning_jobs[k].plan.expires_at + 604800),
{
    purges_leave_what_does_not_match(t.provisioning_plans, plan_over(at), k);
    purges_leave_what_does_not_match(t.provisioning_jobs, job_over(at), k);
}

/// A plan stands on its author: an administrator who still is one, or an agent that is still active and
/// permitted.
pub proof fn plans_stand_on_their_author(t: TxModel, actor: Seq<char>, agent: AgentStandingModel)
    ensures
        !has_prefix(actor, "agent:"@) ==> (author_stands(t, actor, agent) <==> t.users.dom().contains(actor)
            && t.users[actor].enabled && t.users[actor].admin),
        has_prefix(actor, "agent:"@) ==> (author_stands(t, actor, agent) <==> agent.known && agent.active
            && agent.permitted),
{
}

/// The job that was finished first goes first, and only a finished one goes; jobs that are compacted
/// keep everything but their resources, of which they keep the number.
pub proof fn finished_jobs_go_first(m: Map<Seq<char>, JobModel>, k: Seq<char>)
    ensures
        oldest(m) == Some(k) ==> m.dom().contains(k) && (m[k].completed || m[k].stale) && forall|j: Seq<char>|
            #![trigger m.dom().contains(j)]
            m.dom().contains(j) && (m[j].completed || m[j].stale) ==> !goes_first(m, j, k),
        compacted_all(m).dom() == m.dom(),
        m.dom().contains(k) && !m[k].completed && !m[k].stale ==> compacted_all(m)[k] == m[k],
        m.dom().contains(k) && (m[k].completed || m[k].stale) ==> compacted_all(m)[k].plan.resources.len() == 0
            && compacted_all(m)[k].completed == m[k].completed && compacted_all(m)[k].cursor == m[k].cursor
            && compacted_all(m)[k].plan.id == m[k].plan.id && compacted_all(m)[k].error == m[k].error,
{
    assert(compacted_all(m).dom() =~= m.dom());
    if oldest(m) == Some(k) {
        assert(is_oldest(m, k));
    }
}

} // verus!
