//! Sessions at relying parties and their back-channel logout.
pub mod ending;

use crate::engine::{Core, backoff_seconds, drawn, extended, next_id, nth_id, retry_delay};
use crate::model::{Client, ClientModel, Grant, Identity, IdentityModel, Session, User};
use crate::names::in_order;
use crate::outside::{digest, digest_of};
use crate::store::{Tx, TxModel};
use crate::table::{Row, purges_leave_what_does_not_match, without};
use crate::text::{concat3, copy_opt, same};
use vstd::prelude::*;
use vstd::string::*;

verus! {

/// A user's session at one relying party.
pub struct RpSession {
    pub sid: String,
    pub session_id: String,
    pub user_id: String,
    pub subject: String,
    pub client_id: String,
    pub created_at: u64,
    pub expires_at: u64,
    pub ended: bool,
}

/// What a [`RpSession`] holds.
pub struct RpSessionModel {
    pub sid: Seq<char>,
    pub session_id: Seq<char>,
    pub user_id: Seq<char>,
    pub subject: Seq<char>,
    pub client_id: Seq<char>,
    pub created_at: u64,
    pub expires_at: u64,
    pub ended: bool,
}

impl View for RpSession {
    type V = RpSessionModel;

    open spec fn view(&self) -> RpSessionModel {
        RpSessionModel {
            sid: self.sid@,
            session_id: self.session_id@,
            user_id: self.user_id@,
            subject: self.subject@,
            client_id: self.client_id@,
            created_at: self.created_at,
            expires_at: self.expires_at,
            ended: self.ended,
        }
    }
}

impl Row for RpSession {
    fn dup(&self) -> (r: Self) {
        RpSession {
            sid: self.sid.clone(),
            session_id: self.session_id.clone(),
            user_id: self.user_id.clone(),
            subject: self.subject.clone(),
            client_id: self.client_id.clone(),
            created_at: self.created_at,
            expires_at: self.expires_at,
            ended: self.ended,
        }
    }
}

/// A logout token on its way to a relying party.
pub struct Delivery {
    pub id: String,
    pub client_id: String,
    pub sid: String,
    pub subject: String,
    pub uri: String,
    pub created_at: u64,
    pub next_attempt: u64,
    pub attempts: u32,
    pub delivered_at: Option<u64>,
    pub last_status: Option<u16>,
    pub last_failed: bool,
}

/// What a [`Delivery`] holds.
pub struct DeliveryModel {
    pub id: Seq<char>,
    pub client_id: Seq<char>,
    pub sid: Seq<char>,
    pub subject: Seq<char>,
    pub uri: Seq<char>,
    pub created_at: u64,
    pub next_attempt: u64,
    pub attempts: u32,
    pub delivered_at: Option<u64>,
    pub last_status: Option<u16>,
    pub last_failed: bool,
}

impl View for Delivery {
    type V = DeliveryModel;

    open spec fn view(&self) -> DeliveryModel {
        DeliveryModel {
            id: self.id@,
            client_id: self.client_id@,
            sid: self.sid@,
            subject: self.subject@,
            uri: self.uri@,
            created_at: self.created_at,
            next_attempt: self.next_attempt,
            attempts: self.attempts,
            delivered_at: self.delivered_at,
            last_status: self.last_status,
            last_failed: self.last_failed,
        }
    }
}

impl Row for Delivery {
    fn dup(&self) -> (r: Self) {
        Delivery {
            id: self.id.clone(),
            client_id: self.client_id.clone(),
            sid: self.sid.clone(),
            subject: self.subject.clone(),
            uri: self.uri.clone(),
            created_at: self.created_at,
            next_attempt: self.next_attempt,
            attempts: self.attempts,
            delivered_at: self.delivered_at,
            last_status: self.last_status,
            last_failed: self.last_failed,
        }
    }
}

/// A request to end a session.
pub struct LogoutRequest {
    pub id_token_hint: Option<String>,
    pub client_id: Option<String>,
    pub post_logout_redirect_uri: Option<String>,
    pub state: Option<String>,
}

/// What a [`LogoutRequest`] holds.
pub struct LogoutRequestModel {
    pub id_token_hint: Option<Seq<char>>,
    pub client_id: Option<Seq<char>>,
    pub post_logout_redirect_uri: Option<Seq<char>>,
    pub state: Option<Seq<char>>,
}

impl View for LogoutRequest {
    type V = LogoutRequestModel;

    open spec fn view(&self) -> LogoutRequestModel {
        LogoutRequestModel {
            id_token_hint: crate::text::opt_text(self.id_token_hint),
            client_id: crate::text::opt_text(self.client_id),
            post_logout_redirect_uri: crate::text::opt_text(self.post_logout_redirect_uri),
            state: crate::text::opt_text(self.state),
        }
    }
}

impl Row for LogoutRequest {
    fn dup(&self) -> (r: Self) {
        LogoutRequest {
            id_token_hint: crate::text::copy_opt(&self.id_token_hint),
            client_id: crate::text::copy_opt(&self.client_id),
            post_logout_redirect_uri: crate::text::copy_opt(&self.post_logout_redirect_uri),
            state: crate::text::copy_opt(&self.state),
        }
    }
}

/// The session id that a relying party sees.
pub open spec fn relying_sid(session_id: Seq<char>, client_id: Seq<char>) -> Seq<char> {
    digest_of(session_id + "\0"@ + client_id)
}

/// The record of a login at a relying party. It keeps its first time and never shortens.
pub open spec fn recorded(
    t: TxModel,
    c: ClientModel,
    i: IdentityModel,
    subject: Seq<char>,
    grant_expires_at: u64,
) -> RpSessionModel {
    let sid = relying_sid(i.session_id, c.id);
    let known = t.rp_sessions.dom().contains(sid);
    RpSessionModel {
        sid,
        session_id: i.session_id,
        user_id: i.user_id,
        subject,
        client_id: c.id,
        created_at: if known {
            t.rp_sessions[sid].created_at
        } else {
            t.now
        },
        expires_at: if known && t.rp_sessions[sid].expires_at > grant_expires_at {
            t.rp_sessions[sid].expires_at
        } else {
            grant_expires_at
        },
        ended: false,
    }
}

/// Records that the user signed in at the client.
pub fn record(tx: &mut Tx, client: &Client, identity: &Identity, subject: &str, grant: &Grant) -> (sid:
    String)
    ensures
        sid@ == relying_sid(identity@.session_id, client@.id),
        final(tx)@ == (TxModel {
            rp_sessions: old(tx)@.rp_sessions.insert(
                sid@,
                recorded(old(tx)@, client@, identity@, subject@, grant@.expires_at),
            ),
            ..old(tx)@
        }),
{
    let text = concat3(identity.session_id.as_str(), "\0", client.id.as_str());
    let sid = digest(text.as_str());
    let mut created_at: u64 = tx.now;
    let mut expires_at: u64 = grant.expires_at;
    if let Some(known) = tx.rp_sessions.get(sid.as_str()) {
        created_at = known.created_at;
        if known.expires_at > expires_at {
            expires_at = known.expires_at;
        }
    }
    let row = RpSession {
        sid: sid.clone(),
        session_id: identity.session_id.clone(),
        user_id: identity.user_id.clone(),
        subject: subject.to_owned(),
        client_id: client.id.clone(),
        created_at,
        expires_at,
        ended: false,
    };
    tx.rp_sessions.put(sid.as_str(), row);
    sid
}

/// Which relying-party sessions are ended.
pub enum Selection<'a> {
    Session(&'a str),
    Client(&'a str),
    User(&'a str),
    UserClient(&'a str, &'a str),
}

/// What a [`Selection`] holds.
pub enum SelectionModel {
    Session(Seq<char>),
    Client(Seq<char>),
    User(Seq<char>),
    UserClient(Seq<char>, Seq<char>),
}

impl<'a> View for Selection<'a> {
    type V = SelectionModel;

    open spec fn view(&self) -> SelectionModel {
        match *self {
            Selection::Session(id) => SelectionModel::Session(id@),
            Selection::Client(id) => SelectionModel::Client(id@),
            Selection::User(id) => SelectionModel::User(id@),
            Selection::UserClient(user, client) => SelectionModel::UserClient(user@, client@),
        }
    }
}

/// `rp` is among the sessions that `s` selects.
pub open spec fn selected(s: SelectionModel, rp: RpSessionModel) -> bool {
    match s {
        SelectionModel::Session(id) => rp.session_id == id,
        SelectionModel::Client(id) => rp.client_id == id,
        SelectionModel::User(id) => rp.user_id == id,
        SelectionModel::UserClient(user, client) => rp.user_id == user && rp.client_id == client,
    }
}

fn is_selected(s: &Selection, rp: &RpSession) -> (r: bool)
    ensures
        r == selected(s@, rp@),
{
    match s {
        Selection::Session(id) => same(rp.session_id.as_str(), id),
        Selection::Client(id) => same(rp.client_id.as_str(), id),
        Selection::User(id) => same(rp.user_id.as_str(), id),
        Selection::UserClient(user, client) => same(rp.user_id.as_str(), user) && same(
            rp.client_id.as_str(),
            client,
        ),
    }
}

/// Where the client of a session wants its logout tokens.
pub open spec fn logout_uri(t: TxModel, client_id: Seq<char>) -> Option<Seq<char>> {
    if t.clients.dom().contains(client_id) {
        t.clients[client_id].settings.backchannel_logout_uri
    } else {
        None
    }
}

/// A delivery that is due at once.
pub open spec fn new_delivery(t: TxModel, rp: RpSessionModel, uri: Seq<char>) -> DeliveryModel {
    DeliveryModel {
        id: next_id(t),
        client_id: rp.client_id,
        sid: rp.sid,
        subject: rp.subject,
        uri,
        created_at: t.now,
        next_attempt: t.now,
        attempts: 0,
        delivered_at: None,
        last_status: None,
        last_failed: false,
    }
}

/// The store after the session `rp` ended: its client, where it asked for that, is told once.
pub open spec fn ended_one(t: TxModel, rp: RpSessionModel) -> TxModel {
    let t1 = TxModel {
        rp_sessions: t.rp_sessions.insert(rp.sid, RpSessionModel { ended: true, ..rp }),
        ..t
    };
    match logout_uri(t, rp.client_id) {
        None => t1,
        Some(uri) => TxModel {
            logout_deliveries: t.logout_deliveries.insert(next_id(t), new_delivery(t, rp, uri)),
            ..drawn(t1)
        },
    }
}

/// The store after the selected sessions among `keys` ended, in order; `t0` is what was listed.
pub open spec fn ended_all(t0: TxModel, keys: Seq<Seq<char>>, s: SelectionModel) -> TxModel
    decreases keys.len(),
{
    if keys.len() == 0 {
        t0
    } else {
        let t = ended_all(t0, keys.drop_last(), s);
        let rp = t0.rp_sessions[keys.last()];
        if selected(s, rp) && !rp.ended {
            ended_one(t, rp)
        } else {
            t
        }
    }
}

/// The store after every selected session ended.
pub open spec fn queued(t: TxModel, s: SelectionModel) -> TxModel {
    ended_all(t, in_order(t.rp_sessions.dom()), s)
}

fn end_one(tx: &mut Tx, rp: RpSession)
    ensures
        final(tx)@ == ended_one(old(tx)@, rp@),
{
    let uri: Option<String> = match tx.clients.get(rp.client_id.as_str()) {
        Some(c) => copy_opt(&c.settings.backchannel_logout_uri),
        None => None,
    };
    let mut row = rp.dup();
    row.ended = true;
    tx.rp_sessions.put(rp.sid.as_str(), row);
    if let Some(uri) = uri {
        let id = tx.id();
        let delivery = Delivery {
            id: id.clone(),
            client_id: rp.client_id,
            sid: rp.sid,
            subject: rp.subject,
            uri,
            created_at: tx.now,
            next_attempt: tx.now,
            attempts: 0,
            delivered_at: None,
            last_status: None,
            last_failed: false,
        };
        tx.logout_deliveries.put(id.as_str(), delivery);
    }
}

/// Ends every selected session that has not ended, and queues a delivery for each client that
/// registered a logout address.
#[verifier::loop_isolation(false)]
pub fn queue_matching(tx: &mut Tx, selection: &Selection)
    ensures
        final(tx)@ == queued(old(tx)@, selection@),
{
    let keys = tx.rp_sessions.keys();
    let rows = tx.rp_sessions.dup();
    let ghost t0 = tx@;
    let ghost all = in_order(keys@);
    let n: usize = keys.len();
    let mut i: usize = 0;
    assert(all.take(0) =~= Seq::<Seq<char>>::empty());
    while i < n
        invariant
            i <= n,
            tx@ == ended_all(t0, all.take(i as int), selection@),
        decreases n - i,
    {
        proof {
            assert(all.take(i + 1).drop_last() =~= all.take(i as int));
        }
        if let Some(rp) = rows.get(keys.at(i).as_str()) {
            if is_selected(selection, rp) && !rp.ended {
                end_one(tx, rp.dup());
            }
        }
        i = i + 1;
    }
    assert(all.take(i as int) =~= all);
}

pub fn queue_session(tx: &mut Tx, session_id: &str)
    ensures
        final(tx)@ == queued(old(tx)@, SelectionModel::Session(session_id@)),
{
    queue_matching(tx, &Selection::Session(session_id));
}

pub fn queue_client(tx: &mut Tx, client_id: &str)
    ensures
        final(tx)@ == queued(old(tx)@, SelectionModel::Client(client_id@)),
{
    queue_matching(tx, &Selection::Client(client_id));
}

pub fn queue_user(tx: &mut Tx, user_id: &str)
    ensures
        final(tx)@ == queued(old(tx)@, SelectionModel::User(user_id@)),
{
    queue_matching(tx, &Selection::User(user_id));
}

pub fn queue_user_client(tx: &mut Tx, user_id: &str, client_id: &str)
    ensures
        final(tx)@ == queued(old(tx)@, SelectionModel::UserClient(user_id@, client_id@)),
{
    queue_matching(tx, &Selection::UserClient(user_id, client_id));
}

/// The reply of a relying party that accepted the logout token.
pub open spec fn accepted(status: Option<u16>) -> bool {
    status matches Some(s) && 200 <= s < 300
}

/// A delivery after an attempt was answered.
pub open spec fn answered(d: DeliveryModel, status: Option<u16>, now: u64) -> DeliveryModel {
    if accepted(status) {
        DeliveryModel { last_status: status, last_failed: false, delivered_at: Some(now), ..d }
    } else {
        DeliveryModel {
            last_status: status,
            last_failed: true,
            next_attempt: extended(now, backoff_seconds(d.attempts)),
            ..d
        }
    }
}

/// The answer is to the latest attempt of a token that was not delivered yet.
pub open spec fn answer_counts(t: TxModel, id: Seq<char>, attempt: u32) -> bool {
    t.logout_deliveries.dom().contains(id) && t.logout_deliveries[id].attempts == attempt
        && t.logout_deliveries[id].delivered_at is None
}

/// The store after an attempt was answered.
pub open spec fn answer_noted(t: TxModel, id: Seq<char>, attempt: u32, status: Option<u16>) -> TxModel {
    if answer_counts(t, id, attempt) {
        TxModel {
            logout_deliveries: t.logout_deliveries.insert(
                id,
                answered(t.logout_deliveries[id], status, t.now),
            ),
            ..t
        }
    } else {
        t
    }
}

impl Core {
    /// Notes how a relying party answered. Only the latest attempt of an undelivered token counts.
    pub fn finish_logout_delivery(&self, tx: &mut Tx, id: &str, attempt: u32, status: Option<u16>)
        ensures
            final(tx)@ == answer_noted(old(tx)@, id@, attempt, status),
    {
        let mut d = match tx.logout_deliveries.get(id) {
            None => return,
            Some(d) => d.dup(),
        };
        if d.attempts != attempt || d.delivered_at.is_some() {
            return;
        }
        let ok = match status {
            Some(s) => 200 <= s && s < 300,
            None => false,
        };
        d.last_status = status;
        d.last_failed = !ok;
        if ok {
            d.delivered_at = Some(tx.now);
        } else {
            d.next_attempt = tx.now.saturating_add(retry_delay(d.attempts));
        }
        tx.logout_deliveries.put(id, d);
    }
}

/// The session expired more than a day before `at`.
pub open spec fn forgotten_session(at: u64) -> spec_fn(RpSessionModel) -> bool {
    |rp: RpSessionModel| at > extended(rp.expires_at, 86400)
}

/// The delivery was queued more than a week before `at`.
pub open spec fn forgotten_delivery(at: u64) -> spec_fn(DeliveryModel) -> bool {
    |d: DeliveryModel| at > extended(d.created_at, 604800)
}

fn is_forgotten_session(rp: &RpSession, at: u64) -> (b: bool)
    ensures
        b == forgotten_session(at)(rp@),
{
    at > rp.expires_at.saturating_add(86400)
}

fn is_forgotten_delivery(d: &Delivery, at: u64) -> (b: bool)
    ensures
        b == forgotten_delivery(at)(d@),
{
    at > d.created_at.saturating_add(604800)
}

/// Drops sessions a day after they expired and deliveries a week after they were queued.
pub fn cleanup(tx: &mut Tx, at: u64)
    ensures
        final(tx)@ == (TxModel {
            rp_sessions: without(old(tx)@.rp_sessions, forgotten_session(at)),
            logout_deliveries: without(old(tx)@.logout_deliveries, forgotten_delivery(at)),
            ..old(tx)@
        }),
{
    tx.rp_sessions.purge(at, is_forgotten_session, Ghost(forgotten_session(at)));
    tx.logout_deliveries.purge(at, is_forgotten_delivery, Ghost(forgotten_delivery(at)));
}

/// Every row is stored under its session id.
pub open spec fn by_sid(m: Map<Seq<char>, RpSessionModel>) -> bool {
    forall|k: Seq<char>| #[trigger] m.dom().contains(k) ==> m[k].sid == k
}

proof fn lemma_ended_all(t: TxModel, keys: Seq<Seq<char>>, s: SelectionModel)
    requires
        by_sid(t.rp_sessions),
        forall|i: int| 0 <= i < keys.len() ==> t.rp_sessions.dom().contains(#[trigger] keys[i]),
    ensures
        ended_all(t, keys, s).clients == t.clients,
        ended_all(t, keys, s).now == t.now,
        ended_all(t, keys, s).rp_sessions.dom() == t.rp_sessions.dom(),
        forall|k: Seq<char>|
            t.rp_sessions.dom().contains(k) ==> #[trigger] ended_all(t, keys, s).rp_sessions[k] == if keys.contains(
                k,
            ) && selected(s, t.rp_sessions[k]) {
                (RpSessionModel { ended: true, ..t.rp_sessions[k] })
            } else {
                t.rp_sessions[k]
            },
    decreases keys.len(),
{
    if keys.len() > 0 {
        let rest = keys.drop_last();
        let last = keys.last();
        assert forall|i: int| 0 <= i < rest.len() implies t.rp_sessions.dom().contains(
            #[trigger] rest[i],
        ) by {
            assert(rest[i] == keys[i]);
        }
        lemma_ended_all(t, rest, s);
        assert(t.rp_sessions.dom().contains(keys[keys.len() - 1]));
        assert(keys.contains(last));
        assert forall|k: Seq<char>| #[trigger] keys.contains(k) <==> rest.contains(k) || k == last by {
            if keys.contains(k) && k != last {
                let i = keys.index_of(k);
                assert(rest[i] == k);
            }
            if rest.contains(k) {
                let i = rest.index_of(k);
                assert(keys[i] == k);
            }
        }
        assert(ended_all(t, keys, s).rp_sessions.dom() =~= t.rp_sessions.dom());
    }
}

proof fn lemma_nothing_left(t: TxModel, keys: Seq<Seq<char>>, s: SelectionModel)
    requires
        forall|i: int|
            0 <= i < keys.len() ==> !selected(s, t.rp_sessions[#[trigger] keys[i]])
                || t.rp_sessions[keys[i]].ended,
    ensures
        ended_all(t, keys, s) == t,
    decreases keys.len(),
{
    if keys.len() > 0 {
        let rest = keys.drop_last();
        assert forall|i: int| 0 <= i < rest.len() implies !selected(
            s,
            t.rp_sessions[#[trigger] rest[i]],
        ) || t.rp_sessions[rest[i]].ended by {
            assert(rest[i] == keys[i]);
        }
        lemma_nothing_left(t, rest, s);
        assert(!selected(s, t.rp_sessions[keys[keys.len() - 1]])
            || t.rp_sessions[keys[keys.len() - 1]].ended);
    }
}

/// Queueing ends exactly the selected sessions and leaves the others as they are. Doing it again
/// changes nothing: no relying party is told twice.
pub proof fn queueing_ends_the_selected_once(t: TxModel, s: SelectionModel, names: Seq<Seq<char>>)
    requires
        by_sid(t.rp_sessions),
        names == in_order(t.rp_sessions.dom()),
        names.to_set() == t.rp_sessions.dom(),
    ensures
        queued(t, s).rp_sessions.dom() == t.rp_sessions.dom(),
        forall|k: Seq<char>| #[trigger]
            t.rp_sessions.dom().contains(k) ==> queued(t, s).rp_sessions[k] == if selected(
                s,
                t.rp_sessions[k],
            ) {
                (RpSessionModel { ended: true, ..t.rp_sessions[k] })
            } else {
                t.rp_sessions[k]
            },
        by_sid(queued(t, s).rp_sessions),
        queued(queued(t, s), s) == queued(t, s),
{
    assert forall|i: int| 0 <= i < names.len() implies t.rp_sessions.dom().contains(
        #[trigger] names[i],
    ) by {
        assert(names.contains(names[i]));
        assert(names.to_set().contains(names[i]));
    }
    lemma_ended_all(t, names, s);
    let u = queued(t, s);
    assert forall|k: Seq<char>| #[trigger] t.rp_sessions.dom().contains(k) implies names.contains(k) by {
        assert(names.to_set().contains(k));
    }
    assert forall|i: int| 0 <= i < names.len() implies !selected(
        s,
        u.rp_sessions[#[trigger] names[i]],
    ) || u.rp_sessions[names[i]].ended by {
        assert(t.rp_sessions.dom().contains(names[i]));
    }
    lemma_nothing_left(u, names, s);
}

/// The identifier that is drawn after `i` others.
pub open spec fn id_after(t: TxModel, i: nat) -> Seq<char> {
    nth_id(t.seed, ((t.drawn + i) % 0x1_0000_0000_0000_0000) as u64)
}

/// The next `n` identifiers are new and differ from each other.
pub open spec fn new_ids(t: TxModel, n: nat) -> bool {
    &&& forall|i: nat| i < n ==> !t.logout_deliveries.dom().contains(#[trigger] id_after(t, i))
    &&& forall|i: nat, j: nat| i < j < n ==> #[trigger] id_after(t, i) != #[trigger] id_after(t, j)
}

/// The client of the session at `k` is owed a logout token once the selected sessions end.
pub open spec fn owed(t: TxModel, s: SelectionModel, k: Seq<char>) -> bool {
    selected(s, t.rp_sessions[k]) && !t.rp_sessions[k].ended && logout_uri(
        t,
        t.rp_sessions[k].client_id,
    ) is Some
}

/// The sessions among `keys` whose clients are owed a logout token.
pub open spec fn owing(t: TxModel, s: SelectionModel, keys: Seq<Seq<char>>) -> Seq<Seq<char>>
    decreases keys.len(),
{
    if keys.len() == 0 {
        Seq::empty()
    } else if owed(t, s, keys.last()) {
        owing(t, s, keys.drop_last()).push(keys.last())
    } else {
        owing(t, s, keys.drop_last())
    }
}

/// The delivery that tells the client of the session at `k`.
pub open spec fn notice(t: TxModel, k: Seq<char>, id: Seq<char>) -> DeliveryModel {
    let rp = t.rp_sessions[k];
    DeliveryModel { id, ..new_delivery(t, rp, logout_uri(t, rp.client_id)->Some_0) }
}

proof fn lemma_owing(t: TxModel, s: SelectionModel, keys: Seq<Seq<char>>)
    ensures
        owing(t, s, keys).len() <= keys.len(),
        forall|k: Seq<char>| #[trigger] owing(t, s, keys).contains(k) <==> keys.contains(k) && owed(t, s, k),
        keys.no_duplicates() ==> owing(t, s, keys).no_duplicates(),
    decreases keys.len(),
{
    if keys.len() > 0 {
        let rest = keys.drop_last();
        let last = keys.last();
        lemma_owing(t, s, rest);
        let a = owing(t, s, rest);
        let b = owing(t, s, keys);
        assert forall|k: Seq<char>| #[trigger] keys.contains(k) <==> rest.contains(k) || k == last by {
            if keys.contains(k) && k != last {
                let i = keys.index_of(k);
                assert(rest[i] == k);
            }
            if rest.contains(k) {
                let i = rest.index_of(k);
                assert(keys[i] == k);
            }
            if k == last {
                assert(keys[keys.len() - 1] == k);
            }
        }
        if owed(t, s, last) {
            assert forall|k: Seq<char>| #[trigger] b.contains(k) <==> a.contains(k) || k == last by {
                if b.contains(k) && k != last {
                    let i = b.index_of(k);
                    assert(a[i] == k);
                }
                if a.contains(k) {
                    let i = a.index_of(k);
                    assert(b[i] == k);
                }
                if k == last {
                    assert(b[b.len() - 1] == k);
                }
            }
            if keys.no_duplicates() {
                assert(rest.no_duplicates()) by {
                    assert forall|i: int, j: int|
                        0 <= i < rest.len() && 0 <= j < rest.len() && i != j implies rest[i] != rest[j] by {
                        assert(keys[i] != keys[j]);
                    }
                }
                assert(!rest.contains(last)) by {
                    if rest.contains(last) {
                        let i = rest.index_of(last);
                        assert(keys[i] != keys[keys.len() - 1]);
                    }
                }
                assert(!a.contains(last));
                assert forall|i: int, j: int|
                    0 <= i < b.len() && 0 <= j < b.len() && i != j implies b[i] != b[j] by {
                    if i < a.len() && j < a.len() {
                        assert(a[i] != a[j]);
                    } else if i < a.len() {
                        assert(a.contains(a[i]));
                    } else {
                        assert(a.contains(a[j]));
                    }
                }
            }
        } else if keys.no_duplicates() {
            assert(rest.no_duplicates()) by {
                assert forall|i: int, j: int|
                    0 <= i < rest.len() && 0 <= j < rest.len() && i != j implies rest[i] != rest[j] by {
                    assert(keys[i] != keys[j]);
                }
            }
        }
    }
}

proof fn lemma_told(t: TxModel, keys: Seq<Seq<char>>, s: SelectionModel)
    requires
        new_ids(t, owing(t, s, keys).len()),
    ensures
        ended_all(t, keys, s).clients == t.clients,
        ended_all(t, keys, s).now == t.now,
        ended_all(t, keys, s).seed == t.seed,
        ended_all(t, keys, s).drawn == (t.drawn + owing(t, s, keys).len()) % 0x1_0000_0000_0000_0000,
        forall|k: Seq<char>| #[trigger]
            t.logout_deliveries.dom().contains(k) ==> ended_all(t, keys, s).logout_deliveries.dom().contains(
                k,
            ) && ended_all(t, keys, s).logout_deliveries[k] == t.logout_deliveries[k],
        forall|i: nat|
            i < owing(t, s, keys).len() ==> ended_all(t, keys, s).logout_deliveries.dom().contains(
                #[trigger] id_after(t, i),
            ) && ended_all(t, keys, s).logout_deliveries[id_after(t, i)] == notice(
                t,
                owing(t, s, keys)[i as int],
                id_after(t, i),
            ),
        forall|k: Seq<char>| #[trigger]
            ended_all(t, keys, s).logout_deliveries.dom().contains(k)
                && !t.logout_deliveries.dom().contains(k) ==> exists|i: nat|
                i < owing(t, s, keys).len() && k == #[trigger] id_after(t, i),
    decreases keys.len(),
{
    if keys.len() > 0 {
        let rest = keys.drop_last();
        let last = keys.last();
        let a = owing(t, s, rest);
        let b = owing(t, s, keys);
        assert(a.len() <= b.len());
        lemma_told(t, rest, s);
        let u = ended_all(t, rest, s);
        let v = ended_all(t, keys, s);
        if owed(t, s, last) {
            let n = a.len();
            assert(b.len() == n + 1);
            assert(next_id(u) == id_after(t, n));
            assert(!t.logout_deliveries.dom().contains(id_after(t, n)));
            assert forall|i: nat| i < b.len() implies v.logout_deliveries.dom().contains(
                #[trigger] id_after(t, i),
            ) && v.logout_deliveries[id_after(t, i)] == notice(t, b[i as int], id_after(t, i)) by {
                if i < n {
                    assert(id_after(t, i) != id_after(t, n));
                    assert(b[i as int] == a[i as int]);
                } else {
                    assert(b[i as int] == last);
                }
            }
            assert forall|k: Seq<char>| #[trigger]
                v.logout_deliveries.dom().contains(k) && !t.logout_deliveries.dom().contains(
                    k,
                ) implies exists|i: nat| i < b.len() && k == #[trigger] id_after(t, i) by {
                if u.logout_deliveries.dom().contains(k) {
                    let i = choose|i: nat| i < a.len() && k == #[trigger] id_after(t, i);
                    assert(i < b.len() && k == id_after(t, i));
                } else {
                    assert(n < b.len() && k == id_after(t, n));
                }
            }
        }
    }
}

/// Every client that asked for it is told once of each of its sessions that ends: the sessions in
/// `told` are those that were open, selected, and of a client with an address for logout tokens,
/// each once, and for each one delivery is added that nobody has attempted. Nothing else is added,
/// and the deliveries that were there stay. The identifiers drawn have to be new, as drawn ones are.
pub proof fn queueing_tells_each_client_once(
    t: TxModel,
    s: SelectionModel,
    names: Seq<Seq<char>>,
    told: Seq<Seq<char>>,
)
    requires
        names == in_order(t.rp_sessions.dom()),
        names.to_set() == t.rp_sessions.dom(),
        names.no_duplicates(),
        told == owing(t, s, names),
        new_ids(t, told.len()),
    ensures
        told.no_duplicates(),
        forall|k: Seq<char>| #[trigger]
            told.contains(k) <==> t.rp_sessions.dom().contains(k) && owed(t, s, k),
        forall|i: nat|
            i < told.len() ==> queued(t, s).logout_deliveries.dom().contains(#[trigger] id_after(t, i))
                && queued(t, s).logout_deliveries[id_after(t, i)] == notice(
                t,
                told[i as int],
                id_after(t, i),
            ),
        forall|i: nat|
            i < told.len() ==> notice(t, told[i as int], #[trigger] id_after(t, i)).attempts == 0
                && notice(t, told[i as int], id_after(t, i)).delivered_at is None,
        forall|k: Seq<char>| #[trigger]
            t.logout_deliveries.dom().contains(k) ==> queued(t, s).logout_deliveries.dom().contains(k)
                && queued(t, s).logout_deliveries[k] == t.logout_deliveries[k],
        forall|k: Seq<char>| #[trigger]
            queued(t, s).logout_deliveries.dom().contains(k) ==> t.logout_deliveries.dom().contains(k)
                || exists|i: nat| i < told.len() && k == #[trigger] id_after(t, i),
{
    lemma_owing(t, s, names);
    lemma_told(t, names, s);
    assert forall|k: Seq<char>| #[trigger] t.rp_sessions.dom().contains(k) <==> names.contains(k) by {
        assert(names.to_set().contains(k) <==> names.contains(k));
    }
}

/// A delivery that was accepted stays as it is: whatever is answered to a later or a repeated
/// attempt changes nothing.
pub proof fn delivered_once(
    t: TxModel,
    id: Seq<char>,
    attempt: u32,
    status: Option<u16>,
    later: u32,
    again: Option<u16>,
)
    requires
        accepted(status),
        answer_counts(t, id, attempt),
    ensures
        answer_noted(t, id, attempt, status).logout_deliveries[id].delivered_at == Some(t.now),
        answer_noted(answer_noted(t, id, attempt, status), id, later, again) == answer_noted(
            t,
            id,
            attempt,
            status,
        ),
{
}

/// A login that is told to a client is remembered by who logged in, where and as whom, for as long as the
/// longest of its grants; and it is open.
pub proof fn remembered_logins_name_their_session(
    t: TxModel,
    c: ClientModel,
    i: IdentityModel,
    subject: Seq<char>,
    grant_expires_at: u64,
)
    ensures
        ({
            let rp = recorded(t, c, i, subject, grant_expires_at);
            &&& rp.sid == digest_of(i.session_id + "\0"@ + c.id)
            &&& rp.session_id == i.session_id && rp.user_id == i.user_id
            &&& rp.client_id == c.id && rp.subject == subject
            &&& !rp.ended
            &&& rp.expires_at >= grant_expires_at
            &&& t.rp_sessions.dom().contains(rp.sid) ==> rp.expires_at
                >= t.rp_sessions[rp.sid].expires_at && rp.created_at
                == t.rp_sessions[rp.sid].created_at
            &&& !t.rp_sessions.dom().contains(rp.sid) ==> rp.expires_at == grant_expires_at
                && rp.created_at == t.now
        }),
{
}

/// A notice that was not taken is sent again later, never at once and never more than an hour apart; one
/// that was taken is not.
pub proof fn refused_notices_are_sent_again(
    t: TxModel,
    id: Seq<char>,
    attempt: u32,
    status: Option<u16>,
)
    requires
        t.logout_deliveries.dom().contains(id),
        t.logout_deliveries[id].attempts == attempt,
        t.logout_deliveries[id].delivered_at is None,
        t.now + 3600 <= u64::MAX,
    ensures
        ({
            let d = answer_noted(t, id, attempt, status).logout_deliveries[id];
            let taken = status is Some && status->0 >= 200 && status->0 <= 299;
            &&& taken ==> d.delivered_at == Some(t.now) && !d.last_failed
            &&& !taken ==> d.delivered_at is None && d.last_failed && d.next_attempt > t.now
                && d.next_attempt <= t.now + 3600
            &&& d.last_status == status
            &&& d.attempts == attempt
        }),
{
    reveal_with_fuel(crate::engine::power_of_two, 13);
}

/// Logins at clients are remembered for a day after they end, and notices for a week.
pub proof fn ended_logins_are_forgotten(t: TxModel, at: u64, k: Seq<char>)
    requires
        t.rp_sessions.dom().contains(k) ==> t.rp_sessions[k].expires_at <= u64::MAX - 86400,
        t.logout_deliveries.dom().contains(k) ==> t.logout_deliveries[k].created_at <= u64::MAX - 604800,
    ensures
        without(t.rp_sessions, forgotten_session(at)).dom().contains(k) <==> t.rp_sessions.dom().contains(k)
            && at <= t.rp_sessions[k].expires_at + 86400,
        without(t.logout_deliveries, forgotten_delivery(at)).dom().contains(k)
            <==> t.logout_deliveries.dom().contains(k) && at <= t.logout_deliveries[k].created_at + 604800,
{
    purges_leave_what_does_not_match(t.rp_sessions, forgotten_session(at), k);
    purges_leave_what_does_not_match(t.logout_deliveries, forgotten_delivery(at), k);
}

} // verus!
