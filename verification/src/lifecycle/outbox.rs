//! The outbox: which messages are sent next, and what an attempt leaves behind.
use crate::engine::{Core, backoff_seconds, drawn, extended, next_id, retry_delay};
use crate::lifecycle::{AccountProof, AccountProofModel, MailDelivery, MailDeliveryModel, limit_over};
use crate::names::{Names, in_order, lemma_take_set};
use crate::store::{Tx, TxModel};
use crate::table::{Row, Table, views, without};
use crate::text::{same_opt, texts};
use crate::lifecycle::is_limit_over;
use vstd::prelude::*;
use vstd::string::*;

verus! {

/// A message that cannot be sent any more.
pub open spec fn mail_over(t: TxModel, d: MailDeliveryModel) -> bool {
    d.expires_at <= t.now || d.attempts >= 12 || !t.account_proofs.dom().contains(d.proof)
}

/// A message without its text.
pub open spec fn emptied(d: MailDeliveryModel) -> MailDeliveryModel {
    MailDeliveryModel { stopped: true, body: None, lease: None, ..d }
}

/// The due messages that are taken, at most sixteen, with the store after all of them were looked
/// at.
pub open spec fn mail_taken(t: TxModel, keys: Seq<Seq<char>>) -> (TxModel, Seq<MailDeliveryModel>)
    decreases keys.len(),
{
    if keys.len() == 0 {
        (t, Seq::empty())
    } else {
        let was = mail_taken(t, keys.drop_last());
        let u = was.0;
        let k = keys.last();
        if !u.mail_deliveries.dom().contains(k) {
            was
        } else {
            let d = u.mail_deliveries[k];
            if d.delivered_at is Some || d.stopped {
                was
            } else if mail_over(u, d) {
                (
                    TxModel { mail_deliveries: u.mail_deliveries.insert(k, emptied(d)), ..u },
                    was.1,
                )
            } else if d.next_attempt > u.now || was.1.len() >= 16 {
                was
            } else {
                let next = MailDeliveryModel {
                    attempts: (d.attempts + 1) as u32,
                    next_attempt: extended(u.now, 60),
                    lease: Some(next_id(u)),
                    ..d
                };
                (
                    TxModel { mail_deliveries: u.mail_deliveries.insert(k, next), ..drawn(u) },
                    was.1.push(next),
                )
            }
        }
    }
}

/// The store after an attempt.
pub open spec fn mail_finished(t: TxModel, d: MailDeliveryModel, sent: bool) -> TxModel {
    if !t.mail_deliveries.dom().contains(d.id) || t.mail_deliveries[d.id].lease != d.lease {
        t
    } else {
        let was = t.mail_deliveries[d.id];
        let next = if sent {
            MailDeliveryModel { lease: None, delivered_at: Some(t.now), body: None, ..was }
        } else {
            MailDeliveryModel {
                lease: None,
                next_attempt: extended(t.now, backoff_seconds(was.attempts)),
                ..was
            }
        };
        TxModel { mail_deliveries: t.mail_deliveries.insert(next.id, next), ..t }
    }
}

/// What is shown of a message: never its text.
pub struct MailView {
    pub id: String,
    pub created_at: u64,
    pub expires_at: u64,
    pub attempts: u32,
    pub next_attempt: u64,
    pub delivered_at: Option<u64>,
    pub stopped: bool,
}

/// What a [`MailView`] holds.
pub struct MailViewModel {
    pub id: Seq<char>,
    pub created_at: u64,
    pub expires_at: u64,
    pub attempts: u32,
    pub next_attempt: u64,
    pub delivered_at: Option<u64>,
    pub stopped: bool,
}

impl View for MailView {
    type V = MailViewModel;

    open spec fn view(&self) -> MailViewModel {
        MailViewModel {
            id: self.id@,
            created_at: self.created_at,
            expires_at: self.expires_at,
            attempts: self.attempts,
            next_attempt: self.next_attempt,
            delivered_at: self.delivered_at,
            stopped: self.stopped,
        }
    }
}

impl Row for MailView {
    fn dup(&self) -> (r: Self) {
        MailView {
            id: self.id.clone(),
            created_at: self.created_at,
            expires_at: self.expires_at,
            attempts: self.attempts,
            next_attempt: self.next_attempt,
            delivered_at: self.delivered_at,
            stopped: self.stopped,
        }
    }
}

pub open spec fn mail_shown(d: MailDeliveryModel) -> MailViewModel {
    MailViewModel {
        id: d.id,
        created_at: d.created_at,
        expires_at: d.expires_at,
        attempts: d.attempts,
        next_attempt: d.next_attempt,
        delivered_at: d.delivered_at,
        stopped: d.stopped,
    }
}

impl Core {
    /// The messages, in the order of their keys.
    #[verifier::loop_isolation(false)]
    pub fn mail_deliveries(&self, tx: &Tx) -> (r: Vec<MailView>)
        ensures
            views(r@) == in_order(tx@.mail_deliveries.dom()).map_values(
                |k: Seq<char>| mail_shown(tx@.mail_deliveries[k]),
            ),
    {
        let keys = tx.mail_deliveries.keys();
        let ghost want = in_order(keys@).map_values(
            |k: Seq<char>| mail_shown(tx@.mail_deliveries[k]),
        );
        let n: usize = keys.len();
        let mut out: Vec<MailView> = Vec::new();
        let mut i: usize = 0;
        assert(views(out@) =~= want.take(0));
        while i < n
            invariant
                i <= n,
                views(out@) == want.take(i as int),
            decreases n - i,
        {
            if let Some(d) = tx.mail_deliveries.get(keys.at(i).as_str()) {
                let ghost was = views(out@);
                let v = MailView {
                    id: d.id.clone(),
                    created_at: d.created_at,
                    expires_at: d.expires_at,
                    attempts: d.attempts,
                    next_attempt: d.next_attempt,
                    delivered_at: d.delivered_at,
                    stopped: d.stopped,
                };
                let ghost vm = v@;
                out.push(v);
                assert(views(out@) =~= was.push(vm));
                assert(want.take(i + 1) =~= want.take(i as int).push(vm));
            }
            i = i + 1;
        }
        assert(want.take(n as int) =~= want);
        out
    }

    /// Takes up to sixteen of the due messages.
    #[verifier::loop_isolation(false)]
    pub fn claim_mail(&self, tx: &mut Tx, due: &Vec<String>) -> (r: Vec<MailDelivery>)
        ensures
            ({
                let out = mail_taken(old(tx)@, texts(due@));
                final(tx)@ == out.0 && views(r@) == out.1
            }),
    {
        let ghost t0 = tx@;
        let ghost all = texts(due@);
        let n: usize = due.len();
        let mut ready: Vec<MailDelivery> = Vec::new();
        let mut i: usize = 0;
        assert(all.take(0) =~= Seq::<Seq<char>>::empty());
        assert(views(ready@) =~= Seq::<MailDeliveryModel>::empty());
        while i < n
            invariant
                i <= n,
                mail_taken(t0, all.take(i as int)) == (tx@, views(ready@)),
            decreases n - i,
        {
            proof {
                assert(all.take(i + 1).drop_last() =~= all.take(i as int));
                assert(all.take(i + 1).last() == due@[i as int]@);
                assert(views(ready@).len() == ready.len());
            }
            let key = due[i].as_str();
            let found = match tx.mail_deliveries.get(key) {
                Some(d) => Some(d.dup()),
                None => None,
            };
            if let Some(x) = found {
                let mut d = x;
                if d.delivered_at.is_none() && !d.stopped {
                    if d.expires_at <= tx.now || d.attempts >= 12 || !tx.account_proofs.has(
                        d.proof.as_str(),
                    ) {
                        d.stopped = true;
                        d.body = None;
                        d.lease = None;
                        tx.mail_deliveries.put(key, d);
                    } else if d.next_attempt <= tx.now && ready.len() < 16 {
                        d.attempts = d.attempts + 1;
                        d.next_attempt = tx.now.saturating_add(60);
                        d.lease = Some(tx.id());
                        let copy = d.dup();
                        let ghost was = views(ready@);
                        let ghost dm = copy@;
                        tx.mail_deliveries.put(key, d);
                        ready.push(copy);
                        assert(views(ready@) =~= was.push(dm));
                    }
                }
            }
            i = i + 1;
        }
        assert(all.take(n as int) =~= all);
        ready
    }

    /// Takes note of how an attempt went.
    pub fn finish_mail(&self, tx: &mut Tx, delivery: &MailDelivery, sent: bool)
        ensures
            final(tx)@ == mail_finished(old(tx)@, delivery@, sent),
    {
        let mut current = match tx.mail_deliveries.get(delivery.id.as_str()) {
            None => return,
            Some(d) => d.dup(),
        };
        if !same_opt(&current.lease, &delivery.lease) {
            return;
        }
        current.lease = None;
        if sent {
            current.delivered_at = Some(tx.now);
            current.body = None;
        } else {
            current.next_attempt = tx.now.saturating_add(retry_delay(current.attempts));
        }
        let id = current.id.clone();
        tx.mail_deliveries.put(id.as_str(), current);
    }
}

proof fn lemma_taken_live(t: TxModel, keys: Seq<Seq<char>>)
    ensures
        mail_taken(t, keys).1.len() <= 16,
        mail_taken(t, keys).0.now == t.now,
        mail_taken(t, keys).0.account_proofs == t.account_proofs,
        forall|i: int|
            0 <= i < mail_taken(t, keys).1.len() ==> (#[trigger] mail_taken(t, keys).1[i]).expires_at
                > t.now && t.account_proofs.dom().contains(mail_taken(t, keys).1[i].proof)
                && mail_taken(t, keys).1[i].attempts <= 12,
    decreases keys.len(),
{
    if keys.len() > 0 {
        lemma_taken_live(t, keys.drop_last());
    }
}

/// Only messages whose code still works are taken, at most sixteen at once and each at most twelve
/// times.
pub proof fn only_live_codes_are_sent(t: TxModel, keys: Seq<Seq<char>>)
    ensures
        mail_taken(t, keys).1.len() <= 16,
        forall|i: int|
            0 <= i < mail_taken(t, keys).1.len() ==> (#[trigger] mail_taken(t, keys).1[i]).expires_at
                > t.now && t.account_proofs.dom().contains(mail_taken(t, keys).1[i].proof)
                && mail_taken(t, keys).1[i].attempts <= 12,
{
    lemma_taken_live(t, keys);
}

/// A sent message keeps no code: its text is gone.
pub proof fn sent_messages_keep_no_code(t: TxModel, d: MailDeliveryModel)
    requires
        t.mail_deliveries.dom().contains(d.id),
        t.mail_deliveries[d.id].id == d.id,
        t.mail_deliveries[d.id].lease == d.lease,
    ensures
        mail_finished(t, d, true).mail_deliveries[d.id].body is None,
        mail_finished(t, d, true).mail_deliveries[d.id].delivered_at == Some(t.now),
{
}

pub open spec fn proof_over(at: u64) -> spec_fn(AccountProofModel) -> bool {
    |p: AccountProofModel| p.expires_at <= at
}

fn is_proof_over(p: &AccountProof, at: u64) -> (b: bool)
    ensures
        b == proof_over(at)(p@),
{
    p.expires_at <= at
}

pub open spec fn delivery_over(at: u64) -> spec_fn(MailDeliveryModel) -> bool {
    |d: MailDeliveryModel| extended(d.created_at, 691200) <= at
}

fn is_delivery_over(d: &MailDelivery, at: u64) -> (b: bool)
    ensures
        b == delivery_over(at)(d@),
{
    d.created_at.saturating_add(691200) <= at
}

/// A text that must not be kept any longer.
pub open spec fn body_due(
    d: MailDeliveryModel,
    proofs: Map<Seq<char>, AccountProofModel>,
    at: u64,
) -> bool {
    d.body is Some && (d.expires_at <= at || !proofs.dom().contains(d.proof))
}

/// What a cleanup leaves of a message.
pub open spec fn aged(
    d: MailDeliveryModel,
    proofs: Map<Seq<char>, AccountProofModel>,
    at: u64,
) -> MailDeliveryModel {
    if body_due(d, proofs, at) {
        emptied(d)
    } else {
        d
    }
}

/// The latest codes that still exist.
pub open spec fn still_known(
    latest: Map<Seq<char>, Seq<char>>,
    proofs: Map<Seq<char>, AccountProofModel>,
) -> Map<Seq<char>, Seq<char>> {
    latest.remove_keys(latest.dom().filter(|k: Seq<char>| !proofs.dom().contains(latest[k])))
}

/// The store after a cleanup.
pub open spec fn account_cleaned(t: TxModel, at: u64) -> TxModel {
    let proofs = without(t.account_proofs, proof_over(at));
    TxModel {
        account_proofs: proofs,
        account_latest: still_known(t.account_latest, proofs),
        mail_limits: without(t.mail_limits, limit_over(at)),
        mail_deliveries: without(t.mail_deliveries, delivery_over(at)).map_values(
            |d: MailDeliveryModel| aged(d, proofs, at),
        ),
        ..t
    }
}

#[verifier::loop_isolation(false)]
fn find_forgotten(latest: &Table<String>, proofs: &Table<AccountProof>) -> (r: Names)
    ensures
        r@ == latest@.dom().filter(|k: Seq<char>| !proofs@.dom().contains(latest@[k])),
{
    let keys = latest.keys();
    keys.listing();
    let ghost all = in_order(keys@);
    let ghost q = |k: Seq<char>| !proofs@.dom().contains(latest@[k]);
    let n: usize = keys.len();
    let mut out = Names::new();
    let mut i: usize = 0;
    assert(all.take(0).to_set().filter(q) =~= Set::<Seq<char>>::empty());
    while i < n
        invariant
            i <= n,
            out@ == all.take(i as int).to_set().filter(q),
        decreases n - i,
    {
        let key = keys.at(i).as_str();
        proof {
            lemma_take_set(all, i as int);
        }
        if let Some(h) = latest.get(key) {
            if !proofs.has(h.as_str()) {
                out.insert(key);
            }
        }
        assert(out@ =~= all.take(i + 1).to_set().filter(q));
        i = i + 1;
    }
    proof {
        assert(all.take(n as int) =~= all);
        assert(all.to_set() =~= keys@);
    }
    out
}

#[verifier::loop_isolation(false)]
fn age(deliveries: &mut Table<MailDelivery>, proofs: &Table<AccountProof>, at: u64)
    ensures
        final(deliveries)@ == old(deliveries)@.map_values(
            |d: MailDeliveryModel| aged(d, proofs@, at),
        ),
{
    let ghost m0 = deliveries@;
    let ghost e0 = deliveries.entries();
    let n: usize = deliveries.len();
    let mut i: usize = 0;
    deliveries.listing();
    while i < n
        invariant
            i <= n,
            n == e0.len(),
            deliveries.entries().len() == n,
            forall|k: int| 0 <= k < n ==> (#[trigger] deliveries.entries()[k]).0 == e0[k].0,
            forall|k: int|
                0 <= k < n ==> (#[trigger] deliveries.entries()[k]).1 == if k < i {
                    aged(e0[k].1, proofs@, at)
                } else {
                    e0[k].1
                },
        decreases n - i,
    {
        let mut d = deliveries.row_at(i).dup();
        if d.body.is_some() && (d.expires_at <= at || !proofs.has(d.proof.as_str())) {
            d.body = None;
            d.stopped = true;
            d.lease = None;
        }
        deliveries.set_row(i, d);
        i = i + 1;
    }
    deliveries.listing();
    proof {
        assert forall|k: Seq<char>| deliveries@.dom().contains(k) <==> #[trigger] m0.dom().contains(k) by {
            if m0.dom().contains(k) {
                let a = choose|a: int| 0 <= a < e0.len() && (#[trigger] e0[a]).0 == k;
                assert(deliveries.entries()[a].0 == k);
            }
            if deliveries@.dom().contains(k) {
                let a = choose|a: int|
                    0 <= a < deliveries.entries().len() && (#[trigger] deliveries.entries()[a]).0 == k;
                assert(e0[a].0 == k);
            }
        }
        assert forall|k: Seq<char>| #[trigger] m0.dom().contains(k) implies deliveries@[k] == aged(
            m0[k],
            proofs@,
            at,
        ) by {
            let a = choose|a: int| 0 <= a < e0.len() && (#[trigger] e0[a]).0 == k;
            assert(deliveries.entries()[a].0 == k);
        }
        assert(deliveries@ =~= m0.map_values(|d: MailDeliveryModel| aged(d, proofs@, at)));
    }
}

/// Drops codes, limits and messages that are over.
pub fn cleanup(tx: &mut Tx, at: u64)
    ensures
        final(tx)@ == account_cleaned(old(tx)@, at),
{
    tx.account_proofs.purge(at, is_proof_over, Ghost(proof_over(at)));
    let forgotten = find_forgotten(&tx.account_latest, &tx.account_proofs);
    tx.account_latest.remove_all(&forgotten);
    tx.mail_limits.purge(at, is_limit_over, Ghost(limit_over(at)));
    tx.mail_deliveries.purge(at, is_delivery_over, Ghost(delivery_over(at)));
    age(&mut tx.mail_deliveries, &tx.account_proofs, at);
}

/// A message that is due is taken once: for a minute nobody else takes it, and each attempt is counted.
/// One that is over is emptied instead.
pub proof fn due_messages_are_taken(t: TxModel, k: Seq<char>)
    requires
        t.mail_deliveries.dom().contains(k),
        t.mail_deliveries[k].delivered_at is None,
        !t.mail_deliveries[k].stopped,
        t.now + 60 <= u64::MAX,
    ensures
        ({
            let d = t.mail_deliveries[k];
            let out = mail_taken(t, seq![k]);
            let next = out.0.mail_deliveries[k];
            let over = d.expires_at <= t.now || d.attempts >= 12 || !t.account_proofs.dom().contains(
                d.proof,
            );
            &&& over ==> out.1.len() == 0 && next.stopped && next.body is None && next.lease is None
            &&& !over && d.next_attempt <= t.now ==> out.1 == seq![next] && next.attempts == d.attempts
                + 1 && next.next_attempt == t.now + 60 && next.lease == Some(next_id(t)) && next.body
                == d.body && next.recipient == d.recipient && next.subject == d.subject
            &&& !over && d.next_attempt > t.now ==> out.1.len() == 0 && out.0 == t
        }),
{
    reveal_with_fuel(mail_taken, 2);
    assert(seq![k].drop_last() =~= Seq::<Seq<char>>::empty());
    assert(seq![k].last() == k);
    let out = mail_taken(t, seq![k]);
    assert(out.1.len() == 1 ==> out.1 =~= seq![out.1[0]]);
}

/// A message that could not be sent is tried again later; whoever has lost it changes nothing.
pub proof fn unsent_messages_are_tried_again(t: TxModel, d: MailDeliveryModel)
    requires
        t.mail_deliveries.dom().contains(d.id),
        t.mail_deliveries[d.id].id == d.id,
        t.now + 3600 <= u64::MAX,
    ensures
        ({
            let was = t.mail_deliveries[d.id];
            let next = mail_finished(t, d, false).mail_deliveries[d.id];
            &&& was.lease == d.lease ==> next.lease is None && next.delivered_at == was.delivered_at
                && next.body == was.body && next.next_attempt > t.now && next.next_attempt <= t.now
                + 3600
            &&& was.lease != d.lease ==> mail_finished(t, d, false) == t && mail_finished(t, d, true)
                == t
        }),
{
    reveal_with_fuel(crate::engine::power_of_two, 13);
}

/// What is over is forgotten: codes when they expire, and messages after eight days.
pub proof fn old_mail_is_forgotten(t: TxModel, at: u64, k: Seq<char>)
    ensures
        ({
            let u = account_cleaned(t, at);
            &&& u.account_proofs.dom().contains(k) <==> t.account_proofs.dom().contains(k)
                && t.account_proofs[k].expires_at > at
            &&& u.account_proofs.dom().contains(k) ==> u.account_proofs[k] == t.account_proofs[k]
            &&& t.mail_deliveries.dom().contains(k) && t.mail_deliveries[k].created_at + 691200
                <= u64::MAX ==> (u.mail_deliveries.dom().contains(k) <==> t.mail_deliveries[k].created_at
                + 691200 > at)
            &&& u.mail_deliveries.dom().contains(k) && u.mail_deliveries[k].body is Some
                ==> u.mail_deliveries[k].expires_at > at
            &&& u.users == t.users
        }),
{
}

/// What is shown of a message is when it was made and how it went, and nothing of what it says.
pub proof fn messages_show_how_they_went(d: MailDeliveryModel)
    ensures
        ({
            let v = mail_shown(d);
            &&& v.id == d.id
            &&& v.created_at == d.created_at && v.expires_at == d.expires_at
            &&& v.attempts == d.attempts && v.next_attempt == d.next_attempt
            &&& v.delivered_at == d.delivered_at && v.stopped == d.stopped
        }),
{
}

} // verus!
