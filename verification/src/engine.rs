//! The provider's configuration and the helpers that its operations share.
use crate::kms::{VaultSigner, VaultSignerModel};
use crate::lifecycle::{MailConfig, MailConfigModel};
use crate::model::{Audit, AuditModel};
use crate::names::Names;
use crate::outside::{digest, digest_of};
use crate::store::{Tx, TxModel};
use crate::table::{Row, Table, views};
use crate::text::{concat, concat3, decimal, decimal_text};
use vstd::prelude::*;
use vstd::string::*;

verus! {

/// The configuration that the operations read.
pub struct Config {
    pub issuer: String,
    pub access_token_ttl: u64,
    pub refresh_token_ttl: u64,
    pub session_ttl: u64,
    pub password_history: u32,
    /// The signing services, by name.
    pub signers: Table<VaultSigner>,
    pub mail: Option<MailConfig>,
    /// How long an authentication counts as fresh, in seconds.
    pub fresh_seconds: u64,
    /// After how many seconds a terminal is told to authenticate again.
    pub terminal_warn_seconds: u64,
    /// Who decides on requests for a group.
    pub pam_approvers: Table<Names>,
    /// The addresses of the reverse proxies whose headers are believed.
    pub trusted_proxies: Names,
    pub client_certificates: Option<crate::mtls::ClientCertAuth>,
    pub native_tls: bool,
}

/// What a [`Config`] holds.
pub struct ConfigModel {
    pub issuer: Seq<char>,
    pub access_token_ttl: u64,
    pub refresh_token_ttl: u64,
    pub session_ttl: u64,
    pub password_history: u32,
    pub signers: Map<Seq<char>, VaultSignerModel>,
    pub mail: Option<MailConfigModel>,
    pub fresh_seconds: u64,
    pub terminal_warn_seconds: u64,
    pub pam_approvers: Map<Seq<char>, Set<Seq<char>>>,
    pub trusted_proxies: Set<Seq<char>>,
    pub client_certificates: Option<crate::mtls::ClientCertAuthModel>,
    pub native_tls: bool,
}

impl View for Config {
    type V = ConfigModel;

    open spec fn view(&self) -> ConfigModel {
        ConfigModel {
            issuer: self.issuer@,
            access_token_ttl: self.access_token_ttl,
            refresh_token_ttl: self.refresh_token_ttl,
            session_ttl: self.session_ttl,
            password_history: self.password_history,
            signers: self.signers@,
            mail: crate::table::opt_view(self.mail),
            fresh_seconds: self.fresh_seconds,
            terminal_warn_seconds: self.terminal_warn_seconds,
            pam_approvers: self.pam_approvers@,
            trusted_proxies: self.trusted_proxies@,
            client_certificates: crate::table::opt_view(self.client_certificates),
            native_tls: self.native_tls,
        }
    }
}

impl Row for Config {
    fn dup(&self) -> (r: Self) {
        Config {
            issuer: self.issuer.clone(),
            access_token_ttl: self.access_token_ttl,
            refresh_token_ttl: self.refresh_token_ttl,
            session_ttl: self.session_ttl,
            password_history: self.password_history,
            signers: self.signers.dup(),
            mail: crate::table::dup_opt(&self.mail),
            fresh_seconds: self.fresh_seconds,
            terminal_warn_seconds: self.terminal_warn_seconds,
            pam_approvers: self.pam_approvers.dup(),
            trusted_proxies: self.trusted_proxies.copy(),
            client_certificates: crate::table::dup_opt(&self.client_certificates),
            native_tls: self.native_tls,
        }
    }
}

/// The provider.
pub struct Core {
    pub config: Config,
}

/// What a [`Core`] holds.
pub struct CoreModel {
    pub config: ConfigModel,
}

impl View for Core {
    type V = CoreModel;

    open spec fn view(&self) -> CoreModel {
        CoreModel {
            config: self.config@,
        }
    }
}

impl Row for Core {
    fn dup(&self) -> (r: Self) {
        Core {
            config: self.config.dup(),
        }
    }
}

/// Who performs a management operation.
pub struct Principal {
    pub id: String,
    pub agent: bool,
}

/// What a [`Principal`] holds.
pub struct PrincipalModel {
    pub id: Seq<char>,
    pub agent: bool,
}

impl View for Principal {
    type V = PrincipalModel;

    open spec fn view(&self) -> PrincipalModel {
        PrincipalModel {
            id: self.id@,
            agent: self.agent,
        }
    }
}

impl Row for Principal {
    fn dup(&self) -> (r: Self) {
        Principal {
            id: self.id.clone(),
            agent: self.agent,
        }
    }
}

/// The time `by` seconds after `at`, or the last time that can be written.
pub open spec fn extended(at: u64, by: u64) -> u64 {
    if at + by > u64::MAX {
        u64::MAX
    } else {
        (at + by) as u64
    }
}

/// The trail with one more entry.
pub open spec fn audited(
    t: TxModel,
    actor: Seq<char>,
    action: Seq<char>,
    target: Seq<char>,
) -> TxModel {
    TxModel { audit: t.audit.push(AuditModel { actor, action, target }), ..t }
}

/// Appends an entry to the audit trail.
pub fn audit(tx: &mut Tx, actor: &str, action: &str, target: &str)
    ensures
        final(tx)@ == audited(old(tx)@, actor@, action@, target@),
{
    let ghost was = views(tx.audit@);
    tx.audit.push(
        Audit { actor: actor.to_owned(), action: action.to_owned(), target: target.to_owned() },
    );
    assert(views(tx.audit@) =~= was.push(AuditModel { actor: actor@, action: action@, target: target@ }));
}

/// The identifier that the `n`-th draw from `seed` gives.
pub open spec fn nth_id(seed: Seq<char>, n: u64) -> Seq<char> {
    digest_of(seed + "\0"@ + decimal(n as nat))
}

/// The store after one identifier was drawn.
pub open spec fn drawn(t: TxModel) -> TxModel {
    TxModel {
        drawn: if t.drawn == u64::MAX {
            0
        } else {
            (t.drawn + 1) as u64
        },
        ..t
    }
}

/// The identifier that is drawn next.
pub open spec fn next_id(t: TxModel) -> Seq<char> {
    nth_id(t.seed, t.drawn)
}

impl Tx {
    /// Draws an identifier.
    pub fn id(&mut self) -> (r: String)
        ensures
            r@ == next_id(old(self)@),
            final(self)@ == drawn(old(self)@),
    {
        let n = decimal_text(self.drawn);
        let text = concat3(self.seed.as_str(), "\0", n.as_str());
        self.drawn = if self.drawn == u64::MAX {
            0
        } else {
            self.drawn + 1
        };
        digest(text.as_str())
    }

    /// Draws a secret that starts with `prefix`.
    pub fn random_token(&mut self, prefix: &str) -> (r: String)
        ensures
            r@ == prefix@ + next_id(old(self)@),
            final(self)@ == drawn(old(self)@),
    {
        let id = self.id();
        concat(prefix, id.as_str())
    }
}

/// `min` on times.
pub fn earlier(a: u64, b: u64) -> (r: u64)
    ensures
        r == if a <= b {
            a
        } else {
            b
        },
{
    if a <= b {
        a
    } else {
        b
    }
}

/// The seconds to wait after `attempts` failures: two to their power, at most an hour.
pub open spec fn backoff_seconds(attempts: u32) -> u64 {
    if attempts >= 12 {
        3600
    } else {
        power_of_two(attempts as nat) as u64
    }
}

pub open spec fn power_of_two(n: nat) -> nat
    decreases n,
{
    if n == 0 {
        1
    } else {
        2 * power_of_two((n - 1) as nat)
    }
}

pub fn retry_delay(attempts: u32) -> (r: u64)
    ensures
        r == backoff_seconds(attempts),
        1 <= r <= 3600,
{
    if attempts >= 12 {
        return 3600;
    }
    let mut r: u64 = 1;
    let mut i: u32 = 0;
    proof {
        reveal_with_fuel(power_of_two, 13);
    }
    while i < attempts
        invariant
            i <= attempts < 12,
            r == power_of_two(i as nat),
            1 <= r <= 2048,
            i <= 11,
            i == 0 ==> r == 1,
            r * power_of_two((11 - i) as nat) == 2048,
        decreases attempts - i,
    {
        proof {
            assert(power_of_two((11 - i) as nat) == 2 * power_of_two((11 - i - 1) as nat));
            assert((r * 2) * power_of_two((11 - i - 1) as nat) == r * (2 * power_of_two(
                (11 - i - 1) as nat,
            ))) by (nonlinear_arith);
            lemma_power_positive((11 - i - 1) as nat);
            assert(r * 2 <= 2048) by (nonlinear_arith)
                requires
                    (r * 2) * power_of_two((11 - i - 1) as nat) == 2048,
                    power_of_two((11 - i - 1) as nat) >= 1,
            ;
        }
        r = r * 2;
        i = i + 1;
    }
    r
}

proof fn lemma_power_positive(n: nat)
    ensures
        power_of_two(n) >= 1,
    decreases n,
{
    if n > 0 {
        lemma_power_positive((n - 1) as nat);
    }
}

/// The wait starts at a second and doubles with each failure, up to an hour.
pub proof fn waits_double_up_to_an_hour(attempts: u32)
    ensures
        backoff_seconds(0) == 1,
        attempts < 11 ==> backoff_seconds((attempts + 1) as u32) == 2 * backoff_seconds(attempts),
        attempts >= 12 ==> backoff_seconds(attempts) == 3600,
        1 <= backoff_seconds(attempts) <= 3600,
{
    reveal_with_fuel(power_of_two, 13);
}

/// An action that is written down is the last of the trail; what stood there stays, and nothing else
/// changes.
pub proof fn the_trail_only_grows(t: TxModel, actor: Seq<char>, action: Seq<char>, target: Seq<char>)
    ensures
        ({
            let u = audited(t, actor, action, target);
            &&& u.audit.len() == t.audit.len() + 1
            &&& u.audit.last().actor == actor
            &&& u.audit.last().action == action
            &&& u.audit.last().target == target
            &&& u.audit.drop_last() == t.audit
            &&& (TxModel { audit: t.audit, ..u }) == t
        }),
{
    assert(audited(t, actor, action, target).audit.drop_last() =~= t.audit);
}

/// A time is put off by as many seconds as are asked, and never beyond the last one that can be
/// written.
pub proof fn times_are_put_off_exactly(at: u64, by: u64)
    ensures
        at + by <= u64::MAX ==> extended(at, by) - at == by,
        at + by > u64::MAX ==> extended(at, by) == u64::MAX,
        extended(at, by) >= at,
        extended(at, by) >= by,
{
}

/// Every draw gives another number, until the count is used up.
pub proof fn draws_are_counted(t: TxModel)
    requires
        t.drawn < u64::MAX,
    ensures
        drawn(t).drawn == t.drawn + 1,
        (TxModel { drawn: t.drawn, ..drawn(t) }) == t,
        next_id(drawn(t)) == nth_id(t.seed, (t.drawn + 1) as u64),
        next_id(t) == nth_id(t.seed, t.drawn),
{
}

} // verus!
