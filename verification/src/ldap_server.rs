//! A bounded, read-only LDAPv3 provider with TLS and scoped service credentials.
pub mod connection;
pub mod filter;
pub mod search;

use crate::error::{Error, Failure, agrees};
use crate::model::{Client, ClientModel};
use crate::names::{Names, in_order};
use crate::radius::requests::{is_not_unicast, not_unicast};
use crate::rules::{Rules, RulesModel, name_check, names_check};
use crate::table::{Row, views};
use crate::text::{ascii_alphanumeric, byte_count, byte_len, chars_of, has_prefix, is_alphanumeric, parts, split, strip_prefix, texts};
use vstd::prelude::*;
use vstd::string::*;

verus! {

/// The directory that a client serves.
pub struct Settings {
    pub base_dn: String,
    pub search_groups: Names,
}

/// What a [`Settings`] holds.
pub struct SettingsModel {
    pub base_dn: Seq<char>,
    pub search_groups: Set<Seq<char>>,
}

impl View for Settings {
    type V = SettingsModel;

    open spec fn view(&self) -> SettingsModel {
        SettingsModel {
            base_dn: self.base_dn@,
            search_groups: self.search_groups@,
        }
    }
}

impl Row for Settings {
    fn dup(&self) -> (r: Self) {
        Settings {
            base_dn: self.base_dn.clone(),
            search_groups: self.search_groups.copy(),
        }
    }
}

/// A domain component: `dc=` and 1 to 63 letters, digits and hyphens.
pub open spec fn domain_component(part: Seq<char>) -> bool {
    has_prefix(part, "dc="@) && {
        let s = part.skip("dc="@.len() as int);
        &&& 1 <= s.len() <= 63
        &&& forall|i: int| 0 <= i < s.len() ==> ascii_alphanumeric(#[trigger] s[i]) || s[i] == '-'
    }
}

pub open spec fn settings_check(
    s: SettingsModel,
    c: ClientModel,
    rules: RulesModel,
) -> Result<(), Failure> {
    if byte_count(s.base_dn) > 253 || !(forall|i: int|
        0 <= i < parts(s.base_dn, ',').len() ==> domain_component(
            #[trigger] parts(s.base_dn, ',')[i],
        )) || s.search_groups.len() == 0 || s.search_groups.len() > 32 || c.service
        || !c.scopes.contains("profile"@) {
        Err(
            Failure::Bad(
                "LDAP requires a simple dc=... base, one to 32 search groups and an interactive policy client"@,
            ),
        )
    } else {
        names_check(rules, in_order(s.search_groups))
    }
}

#[verifier::loop_isolation(false)]
fn is_domain_component(part: &str) -> (r: bool)
    ensures
        r == domain_component(part@),
{
    match strip_prefix(part, "dc=") {
        None => false,
        Some(s) => {
            let v = chars_of(s.as_str());
            let mut i: usize = 0;
            while i < v.len()
                invariant
                    i <= v.len(),
                    v@ == s@,
                    forall|j: int|
                        0 <= j < i ==> ascii_alphanumeric(#[trigger] s@[j]) || s@[j] == '-',
                decreases v.len() - i,
            {
                if !(is_alphanumeric(v[i]) || v[i] == '-') {
                    assert(!(ascii_alphanumeric(s@[i as int]) || s@[i as int] == '-'));
                    return false;
                }
                i = i + 1;
            }
            v.len() >= 1 && v.len() <= 63
        },
    }
}

impl Settings {
    pub fn validate(&self, client: &Client, rules: &Rules) -> (r: Result<(), Error>)
        ensures
            agrees(r, settings_check(self@, client@, rules@)),
    {
        let list = split(self.base_dn.as_str(), ',');
        let ghost all = parts(self.base_dn@, ',');
        let mut simple: bool = true;
        let mut i: usize = 0;
        while i < list.len()
            invariant
                i <= list.len(),
                texts(list@) == all,
                simple == forall|j: int| 0 <= j < i ==> domain_component(#[trigger] all[j]),
            decreases list.len() - i,
        {
            let ok = is_domain_component(list[i].as_str());
            assert(all[i as int] == list@[i as int]@);
            simple = simple && ok;
            i = i + 1;
        }
        if byte_len(self.base_dn.as_str()) > 253 || !simple || self.search_groups.is_empty()
            || self.search_groups.len() > 32 || client.service || !client.scopes.contains("profile") {
            return Err(
                Error::bad(
                    "LDAP requires a simple dc=... base, one to 32 search groups and an interactive policy client",
                ),
            );
        }
        rules.check_names(&self.search_groups)
    }
}

/// An address whose octets are given.
pub struct Peer {
    pub octets: Vec<u8>,
}

/// What a [`Peer`] holds.
pub struct PeerModel {
    pub octets: Seq<u8>,
}

impl View for Peer {
    type V = PeerModel;

    open spec fn view(&self) -> PeerModel {
        PeerModel {
            octets: self.octets@,
        }
    }
}

impl Row for Peer {
    fn dup(&self) -> (r: Self) {
        Peer {
            octets: crate::text::copy_bytes(&self.octets),
        }
    }
}

/// Where the directory is served.
pub struct Listener {
    pub listen: Peer,
    pub client_id: String,
    pub allowed_peers: Vec<Peer>,
    pub tls_cert_file: Option<String>,
    pub tls_key_file: Option<String>,
    pub ldaps: bool,
    pub local_unencrypted: bool,
}

/// What a [`Listener`] holds.
pub struct ListenerModel {
    pub listen: PeerModel,
    pub client_id: Seq<char>,
    pub allowed_peers: Seq<PeerModel>,
    pub tls_cert_file: Option<Seq<char>>,
    pub tls_key_file: Option<Seq<char>>,
    pub ldaps: bool,
    pub local_unencrypted: bool,
}

impl View for Listener {
    type V = ListenerModel;

    open spec fn view(&self) -> ListenerModel {
        ListenerModel {
            listen: self.listen@,
            client_id: self.client_id@,
            allowed_peers: crate::table::views(self.allowed_peers@),
            tls_cert_file: crate::text::opt_text(self.tls_cert_file),
            tls_key_file: crate::text::opt_text(self.tls_key_file),
            ldaps: self.ldaps,
            local_unencrypted: self.local_unencrypted,
        }
    }
}

impl Row for Listener {
    fn dup(&self) -> (r: Self) {
        Listener {
            listen: self.listen.dup(),
            client_id: self.client_id.clone(),
            allowed_peers: crate::table::dup_list(&self.allowed_peers),
            tls_cert_file: crate::text::copy_opt(&self.tls_cert_file),
            tls_key_file: crate::text::copy_opt(&self.tls_key_file),
            ldaps: self.ldaps,
            local_unencrypted: self.local_unencrypted,
        }
    }
}

/// An address of this machine.
pub open spec fn loopback_address(ip: Seq<u8>) -> bool {
    (ip.len() == 4 && ip[0] == 127) || (ip.len() == 16 && ip[15] == 1 && forall|i: int|
        0 <= i < 15 ==> #[trigger] ip[i] == 0)
}

pub fn is_loopback_address(ip: &Vec<u8>) -> (r: bool)
    ensures
        r == loopback_address(ip@),
{
    if ip.len() == 4 {
        return ip[0] == 127;
    }
    if ip.len() != 16 || ip[15] != 1 {
        return false;
    }
    let mut i: usize = 0;
    while i < 15
        invariant
            i <= 15,
            ip.len() == 16,
            forall|j: int| 0 <= j < i ==> #[trigger] ip@[j] == 0,
        decreases 15 - i,
    {
        if ip[i] != 0 {
            assert(ip@[i as int] != 0);
            return false;
        }
        i = i + 1;
    }
    true
}

/// One of the peers is no host of its own.
pub open spec fn vague_peer(peers: Seq<PeerModel>) -> bool {
    exists|i: int| 0 <= i < peers.len() && not_unicast((#[trigger] peers[i]).octets)
}

pub open spec fn ldap_listener_check(l: ListenerModel, rules: RulesModel) -> Result<(), Failure> {
    match name_check(rules, l.client_id) {
        Err(f) => Err(f),
        Ok(_) => if l.allowed_peers.len() == 0 || l.allowed_peers.len() > 128 || vague_peer(
            l.allowed_peers,
        ) {
            Err(Failure::Bad("LDAP listeners require one to 128 explicit peer IPs"@))
        } else if l.local_unencrypted {
            if !loopback_address(l.listen.octets) || l.ldaps || l.tls_cert_file is Some
                || l.tls_key_file is Some {
                Err(
                    Failure::Bad(
                        "Unencrypted LDAP is restricted to an explicit loopback listener"@,
                    ),
                )
            } else {
                Ok(())
            }
        } else if l.tls_cert_file is None || l.tls_key_file is None {
            Err(
                Failure::Bad(
                    "LDAP requires certificate and key files for LDAPS or mandatory STARTTLS"@,
                ),
            )
        } else {
            Ok(())
        },
    }
}

impl Listener {
    pub fn validate(&self, rules: &Rules) -> (r: Result<(), Error>)
        ensures
            agrees(r, ldap_listener_check(self@, rules@)),
    {
        if let Err(e) = rules.check_name(self.client_id.as_str()) {
            return Err(e);
        }
        let ghost all = views(self.allowed_peers@);
        let n: usize = self.allowed_peers.len();
        assert(all.len() == n);
        let mut vague = false;
        let mut i: usize = 0;
        while i < n
            invariant
                i <= n,
                n == self.allowed_peers.len(),
                all == views(self.allowed_peers@),
                vague == exists|j: int| 0 <= j < i && not_unicast((#[trigger] all[j]).octets),
            decreases n - i,
        {
            assert(all[i as int] == self.allowed_peers[i as int]@);
            if is_not_unicast(&self.allowed_peers[i].octets) {
                vague = true;
            }
            i = i + 1;
        }
        if n == 0 || n > 128 || vague {
            return Err(Error::bad("LDAP listeners require one to 128 explicit peer IPs"));
        }
        if self.local_unencrypted {
            if !is_loopback_address(&self.listen.octets) || self.ldaps
                || self.tls_cert_file.is_some() || self.tls_key_file.is_some() {
                return Err(
                    Error::bad("Unencrypted LDAP is restricted to an explicit loopback listener"),
                );
            }
        } else if self.tls_cert_file.is_none() || self.tls_key_file.is_none() {
            return Err(
                Error::bad(
                    "LDAP requires certificate and key files for LDAPS or mandatory STARTTLS",
                ),
            );
        }
        Ok(())
    }
}

/// A client serves a directory if it is interactive, may tell profiles, names one to thirty-two groups
/// by good names, and has a base of domain components.
pub proof fn directories_have_a_domain_and_groups(s: SettingsModel, c: ClientModel, rules: RulesModel)
    ensures
        settings_check(s, c, rules) is Ok ==> {
            &&& byte_count(s.base_dn) <= 253
            &&& 1 <= s.search_groups.len() <= 32
            &&& !c.service
            &&& c.scopes.contains("profile"@)
            &&& forall|i: int|
                0 <= i < parts(s.base_dn, ',').len() ==> has_prefix(
                    #[trigger] parts(s.base_dn, ',')[i],
                    "dc="@,
                ) && 4 <= parts(s.base_dn, ',')[i].len() <= 66
            &&& names_check(rules, in_order(s.search_groups)) is Ok
        },
        byte_count(s.base_dn) <= 253 && 1 <= s.search_groups.len() <= 32 && !c.service
            && c.scopes.contains("profile"@) && names_check(rules, in_order(s.search_groups)) is Ok && (
        forall|i: int|
            0 <= i < parts(s.base_dn, ',').len() ==> domain_component(
                #[trigger] parts(s.base_dn, ',')[i],
            )) ==> settings_check(s, c, rules) is Ok,
{
    reveal_strlit("dc=");
    if settings_check(s, c, rules) is Ok {
        assert forall|i: int| 0 <= i < parts(s.base_dn, ',').len() implies has_prefix(
            #[trigger] parts(s.base_dn, ',')[i],
            "dc="@,
        ) && 4 <= parts(s.base_dn, ',')[i].len() <= 66 by {
            assert(domain_component(parts(s.base_dn, ',')[i]));
        }
    }
}

/// A component of a domain is `dc=` and then letters, digits and hyphens, one to sixty-three of them.
pub proof fn components_are_short_names(name: Seq<char>)
    ensures
        domain_component("dc="@ + name) <==> 1 <= name.len() <= 63 && forall|i: int|
            0 <= i < name.len() ==> ('a' <= #[trigger] name[i] <= 'z') || ('A' <= name[i] <= 'Z') || ('0'
                <= name[i] <= '9') || name[i] == '-',
{
    let part = "dc="@ + name;
    assert(part.skip("dc="@.len() as int) =~= name);
    assert(part.take("dc="@.len() as int) =~= "dc="@);
}

/// A listener without encryption stands on the machine itself and has no certificate; every other one
/// has a certificate and its key. All of them name their peers.
pub proof fn directories_are_encrypted_or_local(l: ListenerModel, rules: RulesModel)
    ensures
        ldap_listener_check(l, rules) is Ok <==> {
            &&& !rules.bad_names.contains(l.client_id)
            &&& 1 <= l.allowed_peers.len() <= 128
            &&& forall|i: int|
                0 <= i < l.allowed_peers.len() ==> !not_unicast((#[trigger] l.allowed_peers[i]).octets)
            &&& if l.local_unencrypted {
                &&& loopback_address(l.listen.octets)
                &&& !l.ldaps
                &&& l.tls_cert_file is None
                &&& l.tls_key_file is None
            } else {
                l.tls_cert_file is Some && l.tls_key_file is Some
            }
        },
{
}

/// The machine itself is 127.x.y.z, or ::1.
pub proof fn loopback_is_the_machine_itself(ip: Seq<u8>)
    ensures
        ip.len() == 4 ==> (loopback_address(ip) <==> ip[0] == 127),
        ip.len() == 16 ==> (loopback_address(ip) <==> ip == Seq::new(15, |i: int| 0u8).push(1u8)),
        ip.len() != 4 && ip.len() != 16 ==> !loopback_address(ip),
{
    let one = Seq::new(15, |i: int| 0u8).push(1u8);
    if ip.len() == 16 && loopback_address(ip) {
        assert(ip =~= one);
    }
    if ip == one {
        assert forall|i: int| 0 <= i < 15 implies #[trigger] ip[i] == 0 by {
            assert(one[i] == 0);
        }
    }
}

} // verus!
