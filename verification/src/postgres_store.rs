//! The connection policy of a database, and a bounded pool of connections.
use crate::error::{Error, Failure, agrees, fails};
use crate::headers::opt_texts;
use crate::ldap_server::{is_loopback_address, loopback_address};
use crate::outside::opt_bytes;
use crate::table::Row;
use crate::text::{opt_text, texts, trim, trimmed};
use vstd::prelude::*;
use vstd::string::*;

verus! {

/// The advisory lock of writers.
pub const WRITE_LOCK: i64 = 90429806040136;

/// How the database is reached. The connection text stands in a private file.
pub struct PostgresConfig {
    pub connection_file: String,
    pub ca_file: Option<String>,
    pub local_unencrypted: bool,
    pub pool_size: usize,
}

/// What a [`PostgresConfig`] holds.
pub struct PostgresConfigModel {
    pub connection_file: Seq<char>,
    pub ca_file: Option<Seq<char>>,
    pub local_unencrypted: bool,
    pub pool_size: usize,
}

impl View for PostgresConfig {
    type V = PostgresConfigModel;

    open spec fn view(&self) -> PostgresConfigModel {
        PostgresConfigModel {
            connection_file: self.connection_file@,
            ca_file: crate::text::opt_text(self.ca_file),
            local_unencrypted: self.local_unencrypted,
            pool_size: self.pool_size,
        }
    }
}

impl Row for PostgresConfig {
    fn dup(&self) -> (r: Self) {
        PostgresConfig {
            connection_file: self.connection_file.clone(),
            ca_file: crate::text::copy_opt(&self.ca_file),
            local_unencrypted: self.local_unencrypted,
            pool_size: self.pool_size,
        }
    }
}

/// The connections of a pool that is not configured otherwise.
pub fn pool_size() -> (r: usize)
    ensures
        r == 8,
{
    8
}

pub open spec fn postgres_check(c: PostgresConfigModel) -> Result<(), Failure> {
    if 1 <= c.pool_size <= 64 {
        Ok(())
    } else {
        Err(Failure::Bad("PostgreSQL pool_size must be 1..64"@))
    }
}

impl PostgresConfig {
    pub fn validate(&self) -> (r: Result<(), Error>)
        ensures
            agrees(r, postgres_check(self@)),
    {
        if self.pool_size < 1 || self.pool_size > 64 {
            return Err(Error::bad("PostgreSQL pool_size must be 1..64"));
        }
        Ok(())
    }
}

/// A host of the connection text.
#[derive(Clone, Copy, PartialEq, Eq, Structural, Debug)]
pub enum PgHost {
    /// A literal loopback address.
    Loopback,
    /// Another TCP host.
    Tcp,
    /// A Unix socket.
    Unix,
}

/// Every host is on this machine.
pub open spec fn all_local(hosts: Seq<PgHost>) -> bool {
    forall|i: int| 0 <= i < hosts.len() ==> #[trigger] hosts[i] != PgHost::Tcp
}

/// A certificate can name every host.
pub open spec fn all_tcp(hosts: Seq<PgHost>) -> bool {
    forall|i: int| 0 <= i < hosts.len() ==> #[trigger] hosts[i] != PgHost::Unix
}

/// Whether these hosts may be connected to. `remote_addresses` tells whether the connection text
/// gives an address beyond this machine.
pub open spec fn hosts_check(hosts: Seq<PgHost>, remote_addresses: bool, unencrypted: bool) -> Result<
    (),
    Failure,
> {
    if hosts.len() == 0 || hosts.len() > 8 {
        Err(Failure::Bad("Configure one to eight explicit PostgreSQL hosts"@))
    } else if unencrypted {
        if !all_local(hosts) || remote_addresses {
            Err(
                Failure::Bad(
                    "Unencrypted PostgreSQL requires literal loopback hosts or Unix sockets"@,
                ),
            )
        } else {
            Ok(())
        }
    } else if !all_tcp(hosts) {
        Err(Failure::Bad("TLS PostgreSQL requires a certificate hostname"@))
    } else {
        Ok(())
    }
}

fn has_host(hosts: &Vec<PgHost>, h: PgHost) -> (r: bool)
    ensures
        r == exists|i: int| 0 <= i < hosts@.len() && #[trigger] hosts@[i] == h,
{
    let mut i: usize = 0;
    while i < hosts.len()
        invariant
            i <= hosts.len(),
            forall|j: int| 0 <= j < i ==> #[trigger] hosts@[j] != h,
        decreases hosts.len() - i,
    {
        if hosts[i] == h {
            assert(hosts@[i as int] == h);
            return true;
        }
        i = i + 1;
    }
    false
}

impl PostgresConfig {
    /// Checks the hosts of the connection text.
    pub fn check_hosts(&self, hosts: &Vec<PgHost>, remote_addresses: bool) -> (r: Result<(), Error>)
        ensures
            agrees(r, hosts_check(hosts@, remote_addresses, self@.local_unencrypted)),
    {
        if hosts.len() == 0 || hosts.len() > 8 {
            return Err(Error::bad("Configure one to eight explicit PostgreSQL hosts"));
        }
        let tcp = has_host(hosts, PgHost::Tcp);
        let unix = has_host(hosts, PgHost::Unix);
        if self.local_unencrypted {
            if tcp || remote_addresses {
                return Err(
                    Error::bad(
                        "Unencrypted PostgreSQL requires literal loopback hosts or Unix sockets",
                    ),
                );
            }
        } else if unix {
            return Err(Error::bad("TLS PostgreSQL requires a certificate hostname"));
        }
        Ok(())
    }
}

/// The hosts that a connection text names, where it can be read: the name of a TCP host, nothing of
/// a Unix socket; and the addresses that it gives.
pub uninterp spec fn pg_hosts(text: Seq<char>) -> Option<
    (Seq<Option<Seq<char>>>, Seq<Seq<char>>),
>;

/// The octets of an address that is written out.
pub uninterp spec fn ip_octets(text: Seq<char>) -> Option<Seq<u8>>;

/// `postgres::Config` parsed from a connection text, then `get_hosts` and `get_hostaddrs`: the
/// hosts and the addresses, in their order, or nothing where the text is refused.
#[verifier::external_body]
fn read_hosts(text: &str) -> (r: Option<(Vec<Option<String>>, Vec<String>)>)
    ensures
        (match r {
            Some(h) => Some((opt_texts(h.0@), texts(h.1@))),
            None => None,
        }) == pg_hosts(text@),
{
    let config: postgres::Config = text.parse().ok()?;
    let hosts = config.get_hosts().iter().map(
        |h| match h {
            postgres::config::Host::Tcp(name) => Some(name.clone()),
            postgres::config::Host::Unix(_) => None,
        },
    ).collect();
    let addresses = config.get_hostaddrs().iter().map(|a| a.to_string()).collect();
    Some((hosts, addresses))
}

/// `IpAddr::try_from` of the `rustls` types: the octets of an address, four or sixteen of them.
#[verifier::external_body]
fn read_octets(text: &str) -> (r: Option<Vec<u8>>)
    ensures
        opt_bytes(r) == ip_octets(text@),
{
    match rustls::pki_types::IpAddr::try_from(text).ok()? {
        rustls::pki_types::IpAddr::V4(a) => Some(a.as_ref().to_vec()),
        rustls::pki_types::IpAddr::V6(a) => Some(a.as_ref().to_vec()),
    }
}

/// The text was read as an address of this machine.
pub open spec fn loopback_octets(o: Option<Seq<u8>>) -> bool {
    o is Some && loopback_address(o->0)
}

/// Whether the octets that an address was read as are those of this machine.
pub fn loops_back(octets: &Option<Vec<u8>>) -> (r: bool)
    ensures
        r == loopback_octets(opt_bytes(*octets)),
{
    match octets {
        None => false,
        Some(b) => is_loopback_address(b),
    }
}

/// What kind of host a connection text names. A TCP host is local only as a literal address.
pub open spec fn host_of(h: Option<Seq<char>>) -> PgHost {
    match h {
        None => PgHost::Unix,
        Some(name) => if loopback_octets(ip_octets(name)) {
            PgHost::Loopback
        } else {
            PgHost::Tcp
        },
    }
}

/// An address is beyond this machine.
pub open spec fn some_remote(addresses: Seq<Seq<char>>) -> bool {
    exists|i: int|
        0 <= i < addresses.len() && !loopback_octets(ip_octets(#[trigger] addresses[i]))
}

/// Whether the database that a connection text names may be connected to.
pub open spec fn connection_check(c: PostgresConfigModel, text: Seq<char>) -> Result<(), Failure> {
    if postgres_check(c) is Err {
        Err(Failure::Internal("PostgreSQL pool_size must be 1..64"@))
    } else {
        match pg_hosts(trimmed(text)) {
            None => Err(Failure::Bad("Invalid PostgreSQL connection file"@)),
            Some(h) => hosts_check(
                h.0.map_values(|o: Option<Seq<char>>| host_of(o)),
                some_remote(h.1),
                c.local_unencrypted,
            ),
        }
    }
}

#[verifier::loop_isolation(false)]
fn has_remote(addresses: &Vec<String>) -> (r: bool)
    ensures
        r == some_remote(texts(addresses@)),
{
    let ghost all = texts(addresses@);
    assert(all.len() == addresses.len());
    let mut i: usize = 0;
    while i < addresses.len()
        invariant
            i <= addresses.len(),
            forall|j: int| 0 <= j < i ==> loopback_octets(ip_octets(#[trigger] all[j])),
        decreases addresses.len() - i,
    {
        assert(all[i as int] == addresses[i as int]@);
        let octets = read_octets(addresses[i].as_str());
        if !loops_back(&octets) {
            assert(!loopback_octets(ip_octets(all[i as int])));
            return true;
        }
        i = i + 1;
    }
    false
}

#[verifier::loop_isolation(false)]
fn sort_hosts(hosts: &Vec<Option<String>>) -> (r: Vec<PgHost>)
    ensures
        r@ == opt_texts(hosts@).map_values(|o: Option<Seq<char>>| host_of(o)),
{
    let ghost all = opt_texts(hosts@).map_values(|o: Option<Seq<char>>| host_of(o));
    assert(all.len() == hosts.len());
    let mut r: Vec<PgHost> = Vec::new();
    let mut i: usize = 0;
    while i < hosts.len()
        invariant
            i <= hosts.len(),
            r@ == all.take(i as int),
        decreases hosts.len() - i,
    {
        assert(opt_texts(hosts@)[i as int] == opt_text(hosts[i as int]));
        assert(all[i as int] == host_of(opt_text(hosts[i as int])));
        let host = match &hosts[i] {
            None => PgHost::Unix,
            Some(name) => {
                let octets = read_octets(name.as_str());
                if loops_back(&octets) {
                    PgHost::Loopback
                } else {
                    PgHost::Tcp
                }
            },
        };
        let ghost was = r@;
        r.push(host);
        i = i + 1;
        assert(all.take(i as int) =~= was.push(all[i - 1]));
    }
    assert(all.take(i as int) =~= all);
    r
}

impl PostgresConfig {
    /// Checks a connection text before anything is connected to.
    pub fn check_connection(&self, text: &str) -> (r: Result<(), Error>)
        ensures
            agrees(r, connection_check(self@, text@)),
    {
        if self.pool_size < 1 || self.pool_size > 64 {
            return Err(Error::internal("PostgreSQL pool_size must be 1..64"));
        }
        let text = trim(text);
        match read_hosts(text.as_str()) {
            None => Err(Error::bad("Invalid PostgreSQL connection file")),
            Some((hosts, addresses)) => {
                let sorted = sort_hosts(&hosts);
                self.check_hosts(&sorted, has_remote(&addresses))
            },
        }
    }
}

/// How many connections there are, and how many of them are idle.
pub struct Connections {
    pub idle: usize,
    pub total: usize,
}

/// What a caller who wants a connection does.
#[derive(Clone, Copy, PartialEq, Eq, Structural, Debug)]
pub enum Acquire {
    /// Takes an idle connection; the closed ones before it were dropped.
    Reuse,
    /// Opens one more.
    Open,
    /// Waits for one, for so many nanoseconds at most.
    Wait(u64),
}

/// How long a caller waits for a connection, in nanoseconds.
pub const POOL_WAIT: u64 = 5_000_000_000;

/// Every connection is taken, and the caller has waited long enough.
pub open spec fn storage_busy() -> Failure {
    Failure::Reply(503, "storage_busy"@, "All storage connections are busy; retry shortly"@)
}

impl Connections {
    /// The idle ones are among all, and all are within the limit.
    pub open spec fn within(&self, limit: usize) -> bool {
        self.idle <= self.total <= limit
    }

    pub fn new() -> (r: Connections)
        ensures
            r.idle == 0,
            r.total == 0,
            forall|limit: usize| r.within(limit),
    {
        Connections { idle: 0, total: 0 }
    }

    /// Decides how a connection is had. `closed` is how many of the idle connections that are
    /// looked at first are closed, and `waited` how many nanoseconds the caller has waited.
    pub fn acquire(&mut self, closed: usize, limit: usize, waited: u64) -> (r: Result<Acquire, Error>)
        requires
            old(self).within(limit),
            closed <= old(self).idle,
        ensures
            final(self).within(limit),
            r is Err ==> fails(r, storage_busy()) && waited >= POOL_WAIT && closed == old(self).idle
                && old(self).total - closed == limit && final(self).idle == 0 && final(self).total
                == limit,
            r matches Ok(a) ==> match a {
                Acquire::Reuse => closed < old(self).idle && final(self).idle == old(self).idle - closed
                    - 1 && final(self).total == old(self).total - closed,
                Acquire::Open => closed == old(self).idle && old(self).total - closed < limit
                    && final(self).idle == 0 && final(self).total == old(self).total - closed + 1,
                Acquire::Wait(left) => closed == old(self).idle && old(self).total - closed == limit
                    && final(self).idle == 0 && final(self).total == limit && waited + left
                    == POOL_WAIT && left > 0,
            },
    {
        self.total = self.total - closed;
        self.idle = self.idle - closed;
        if self.idle > 0 {
            self.idle = self.idle - 1;
            return Ok(Acquire::Reuse);
        }
        if self.total < limit {
            self.total = self.total + 1;
            return Ok(Acquire::Open);
        }
        if waited >= POOL_WAIT {
            return Err(
                Error::reply(503, "storage_busy", "All storage connections are busy; retry shortly"),
            );
        }
        Ok(Acquire::Wait(POOL_WAIT - waited))
    }

    /// A connection that was to be opened could not be.
    pub fn failed(&mut self, limit: usize)
        requires
            old(self).within(limit),
            old(self).idle < old(self).total,
        ensures
            final(self).within(limit),
            final(self).idle == old(self).idle,
            final(self).total == old(self).total - 1,
    {
        self.total = self.total - 1;
    }

    /// A connection comes back, or is dropped where it is closed.
    pub fn give_back(&mut self, closed: bool, limit: usize)
        requires
            old(self).within(limit),
            old(self).idle < old(self).total,
        ensures
            final(self).within(limit),
            final(self).idle == if closed {
                old(self).idle
            } else {
                (old(self).idle + 1) as usize
            },
            final(self).total == if closed {
                (old(self).total - 1) as usize
            } else {
                old(self).total
            },
    {
        if closed {
            self.total = self.total - 1;
        } else {
            self.idle = self.idle + 1;
        }
    }
}

/// A connection without encryption goes to the machine itself or to a socket, and an encrypted one to
/// a host that a certificate can name. Either way one to eight hosts are named.
pub proof fn databases_are_encrypted_or_local(hosts: Seq<PgHost>, remote_addresses: bool)
    ensures
        hosts_check(hosts, remote_addresses, true) is Ok <==> 1 <= hosts.len() <= 8 && !remote_addresses
            && forall|i: int|
            0 <= i < hosts.len() ==> (#[trigger] hosts[i]) == PgHost::Unix || hosts[i] == PgHost::Loopback,
        hosts_check(hosts, remote_addresses, false) is Ok <==> 1 <= hosts.len() <= 8 && forall|i: int|
            0 <= i < hosts.len() ==> (#[trigger] hosts[i]) == PgHost::Tcp || hosts[i] == PgHost::Loopback,
{
}

/// A pool has one to sixty-four connections; a connection file that cannot be read is refused.
pub proof fn pools_are_bounded(c: PostgresConfigModel, text: Seq<char>)
    ensures
        connection_check(c, text) is Ok ==> 1 <= c.pool_size <= 64 && pg_hosts(trimmed(text)) is Some
            && 1 <= (pg_hosts(trimmed(text))->0).0.len() <= 8,
        connection_check(c, text) is Ok && c.local_unencrypted ==> forall|i: int|
            0 <= i < (pg_hosts(trimmed(text))->0).1.len() ==> loopback_octets(
                ip_octets(#[trigger] (pg_hosts(trimmed(text))->0).1[i]),
            ),
{
}

} // verus!
