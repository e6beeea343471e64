//! Requests of network access servers: who may ask, and what they are answered.
use crate::error::{Error, Failure, agrees, agrees_with, and_also, fails};
use crate::json::{Json, JsonModel};
use crate::model::{User, UserModel};
use crate::names::{Names, in_order};
use crate::outside::{base64url_bytes, base64url_decode, wire_pairs};
use crate::radius::{Attribute, AttributeModel, ReplyValue, ReplyValueModel, reply_text, type_check, validate_type};
use crate::radius::eap::eap_config_check;
use crate::radius::packet::{append_bytes, push_attribute};
use crate::rules::{Rules, RulesModel, name_check};
use crate::table::{Row, Table};
use crate::text::{all_graphic, byte_count, byte_len, chars_of, has_control, is_graphic, opt_text, same_opt, slice_of};
use vstd::utf8::encode_utf8;
use crate::radius::{Settings, SettingsModel, settings_check};
use vstd::prelude::*;
use vstd::string::*;

verus! {

#[derive(Clone, Copy, PartialEq, Eq, Structural, Debug)]
pub enum Transport {
    Udp,
    Tls,
}

/// A network access server.
pub struct Nas {
    /// The octets of its IP address, four or sixteen.
    pub peer: Vec<u8>,
    pub client_id: String,
    pub shared_secret_file: Option<String>,
    pub certificate_sha256: Option<String>,
}

/// What a [`Nas`] holds.
pub struct NasModel {
    pub peer: Seq<u8>,
    pub client_id: Seq<char>,
    pub shared_secret_file: Option<Seq<char>>,
    pub certificate_sha256: Option<Seq<char>>,
}

impl View for Nas {
    type V = NasModel;

    open spec fn view(&self) -> NasModel {
        NasModel {
            peer: self.peer@,
            client_id: self.client_id@,
            shared_secret_file: crate::text::opt_text(self.shared_secret_file),
            certificate_sha256: crate::text::opt_text(self.certificate_sha256),
        }
    }
}

impl Row for Nas {
    fn dup(&self) -> (r: Self) {
        Nas {
            peer: crate::text::copy_bytes(&self.peer),
            client_id: self.client_id.clone(),
            shared_secret_file: crate::text::copy_opt(&self.shared_secret_file),
            certificate_sha256: crate::text::copy_opt(&self.certificate_sha256),
        }
    }
}

/// Where requests are taken.
pub struct Listener {
    pub eap_tls: Option<crate::radius::eap::Config>,
    pub transport: Transport,
    pub nas: Table<Nas>,
    pub tls_cert_file: Option<String>,
    pub tls_key_file: Option<String>,
    pub client_ca_file: Option<String>,
}

/// What a [`Listener`] holds.
pub struct ListenerModel {
    pub eap_tls: Option<crate::radius::eap::ConfigModel>,
    pub transport: Transport,
    pub nas: Map<Seq<char>, NasModel>,
    pub tls_cert_file: Option<Seq<char>>,
    pub tls_key_file: Option<Seq<char>>,
    pub client_ca_file: Option<Seq<char>>,
}

impl View for Listener {
    type V = ListenerModel;

    open spec fn view(&self) -> ListenerModel {
        ListenerModel {
            eap_tls: crate::table::opt_view(self.eap_tls),
            transport: self.transport,
            nas: self.nas@,
            tls_cert_file: crate::text::opt_text(self.tls_cert_file),
            tls_key_file: crate::text::opt_text(self.tls_key_file),
            client_ca_file: crate::text::opt_text(self.client_ca_file),
        }
    }
}

impl Row for Listener {
    fn dup(&self) -> (r: Self) {
        Listener {
            eap_tls: crate::table::dup_opt(&self.eap_tls),
            transport: self.transport,
            nas: self.nas.dup(),
            tls_cert_file: crate::text::copy_opt(&self.tls_cert_file),
            tls_key_file: crate::text::copy_opt(&self.tls_key_file),
            client_ca_file: crate::text::copy_opt(&self.client_ca_file),
        }
    }
}

/// An address that stands for no host or for many.
pub open spec fn not_unicast(ip: Seq<u8>) -> bool {
    (forall|i: int| 0 <= i < ip.len() ==> #[trigger] ip[i] == 0) || (ip.len() == 4 && 224 <= ip[0]
        <= 239) || (ip.len() == 16 && ip[0] == 255)
}

#[verifier::loop_isolation(false)]
pub fn is_not_unicast(ip: &Vec<u8>) -> (r: bool)
    ensures
        r == not_unicast(ip@),
{
    if ip.len() == 4 && 224 <= ip[0] && ip[0] <= 239 {
        return true;
    }
    if ip.len() == 16 && ip[0] == 255 {
        return true;
    }
    let mut i: usize = 0;
    while i < ip.len()
        invariant
            i <= ip.len(),
            forall|j: int| 0 <= j < i ==> #[trigger] ip@[j] == 0,
        decreases ip.len() - i,
    {
        if ip[i] != 0 {
            assert(ip@[i as int] != 0);
            return false;
        }
        i = i + 1;
    }
    true
}

/// A certificate pin: the base64url form of 32 bytes.
pub open spec fn good_pin(pin: Option<Seq<char>>) -> bool {
    pin matches Some(p) && byte_count(p) == 43 && (base64url_bytes(p) matches Some(b) && b.len() == 32)
}

fn is_good_pin(pin: &Option<String>) -> (r: bool)
    ensures
        r == good_pin(opt_text(*pin)),
{
    match pin {
        None => false,
        Some(p) => {
            if byte_len(p.as_str()) != 43 {
                return false;
            }
            match base64url_decode(p.as_str()) {
                Some(b) => b.len() == 32,
                None => false,
            }
        },
    }
}

/// Two servers that requests could not be told apart of.
pub open spec fn same_peer(t: Transport, a: NasModel, b: NasModel) -> bool {
    a.peer == b.peer && (t == Transport::Udp || a.certificate_sha256 == b.certificate_sha256)
}

/// The rule on the `i`-th server.
pub open spec fn nas_check(
    l: ListenerModel,
    keys: Seq<Seq<char>>,
    i: int,
    rules: RulesModel,
) -> Result<(), Failure> {
    let n = l.nas[keys[i]];
    let taken = exists|j: int| 0 <= j < i && same_peer(l.transport, l.nas[#[trigger] keys[j]], n);
    and_also(
        name_check(rules, keys[i]),
        and_also(
            name_check(rules, n.client_id),
            if not_unicast(n.peer) {
                Err(Failure::Bad("RADIUS NAS needs an explicit unicast peer IP"@))
            } else if l.transport == Transport::Udp && (n.shared_secret_file is None
                || n.certificate_sha256 is Some || taken) {
                Err(Failure::Bad("UDP RADIUS requires one shared-secret NAS per peer IP"@))
            } else if l.transport == Transport::Tls && (n.shared_secret_file is Some || !good_pin(
                n.certificate_sha256,
            ) || taken) {
                Err(
                    Failure::Bad(
                        "RadSec requires a unique peer/certificate pin and uses the fixed radsec protocol secret"@,
                    ),
                )
            } else {
                Ok(())
            },
        ),
    )
}

/// The rule on the first `n` servers.
pub open spec fn nas_checks(
    l: ListenerModel,
    keys: Seq<Seq<char>>,
    n: nat,
    rules: RulesModel,
) -> Result<(), Failure>
    decreases n,
{
    if n == 0 {
        Ok(())
    } else {
        and_also(
            nas_checks(l, keys, (n - 1) as nat, rules),
            nas_check(l, keys, n - 1, rules),
        )
    }
}

proof fn lemma_nas_fails(
    l: ListenerModel,
    keys: Seq<Seq<char>>,
    n: nat,
    m: nat,
    rules: RulesModel,
)
    requires
        n <= m,
        nas_checks(l, keys, n, rules) is Err,
    ensures
        nas_checks(l, keys, m, rules) == nas_checks(l, keys, n, rules),
    decreases m - n,
{
    if n < m {
        lemma_nas_fails(l, keys, n, (m - 1) as nat, rules);
    }
}

pub open spec fn radius_listener_check(l: ListenerModel, rules: RulesModel) -> Result<(), Failure> {
    and_also(
        match l.eap_tls {
            Some(e) => eap_config_check(e),
            None => Ok(()),
        },
        if l.nas.dom().len() == 0 || l.nas.dom().len() > 128 {
            Err(Failure::Bad("RADIUS requires one to 128 explicit NAS entries"@))
        } else {
            and_also(
                nas_checks(l, in_order(l.nas.dom()), in_order(l.nas.dom()).len(), rules),
                if (l.transport == Transport::Tls && (l.tls_cert_file is None || l.tls_key_file is None
                    || l.client_ca_file is None)) || (l.transport == Transport::Udp && (
                l.tls_cert_file is Some || l.tls_key_file is Some || l.client_ca_file is Some)) {
                    Err(
                        Failure::Bad(
                            "RadSec requires server certificate/key and private client CA files; UDP has no TLS files"@,
                        ),
                    )
                } else {
                    Ok(())
                },
            )
        },
    )
}

/// Whether two byte strings are equal.
pub fn same_bytes(a: &Vec<u8>, b: &Vec<u8>) -> (r: bool)
    ensures
        r == (a@ == b@),
{
    if a.len() != b.len() {
        return false;
    }
    let mut i: usize = 0;
    while i < a.len()
        invariant
            i <= a.len(),
            a.len() == b.len(),
            forall|j: int| 0 <= j < i ==> #[trigger] a@[j] == b@[j],
        decreases a.len() - i,
    {
        if a[i] != b[i] {
            assert(a@[i as int] != b@[i as int]);
            return false;
        }
        i = i + 1;
    }
    assert(a@ =~= b@);
    true
}

impl Listener {
    #[verifier::loop_isolation(false)]
    fn is_taken(&self, keys: &Names, i: usize, n: &Nas) -> (r: bool)
        requires
            keys@ == self@.nas.dom(),
            i < in_order(keys@).len(),
        ensures
            r == exists|j: int|
                0 <= j < i && same_peer(
                    self@.transport,
                    self@.nas[#[trigger] in_order(keys@)[j]],
                    n@,
                ),
    {
        let ghost all = in_order(keys@);
        let mut j: usize = 0;
        let udp = match self.transport {
            Transport::Udp => true,
            Transport::Tls => false,
        };
        keys.listing();
        while j < i
            invariant
                j <= i,
                forall|k: int|
                    0 <= k < j ==> !same_peer(self@.transport, self@.nas[#[trigger] all[k]], n@),
            decreases i - j,
        {
            if let Some(m) = self.nas.get(keys.at(j).as_str()) {
                if same_bytes(&m.peer, &n.peer) && (udp || same_opt(
                    &m.certificate_sha256,
                    &n.certificate_sha256,
                )) {
                    assert(same_peer(self@.transport, self@.nas[all[j as int]], n@));
                    return true;
                }
            }
            j = j + 1;
        }
        false
    }

    fn check_nas(&self, keys: &Names, i: usize, rules: &Rules) -> (r: Result<(), Error>)
        requires
            keys@ == self@.nas.dom(),
            i < in_order(keys@).len(),
        ensures
            agrees(r, nas_check(self@, in_order(keys@), i as int, rules@)),
    {
        let key = keys.at(i).as_str();
        if let Err(e) = rules.check_name(key) {
            return Err(e);
        }
        let n = match self.nas.get(key) {
            Some(n) => n,
            None => return Ok(()),
        };
        if let Err(e) = rules.check_name(n.client_id.as_str()) {
            return Err(e);
        }
        if is_not_unicast(&n.peer) {
            return Err(Error::bad("RADIUS NAS needs an explicit unicast peer IP"));
        }
        let taken = self.is_taken(keys, i, n);
        match self.transport {
            Transport::Udp => {
                if n.shared_secret_file.is_none() || n.certificate_sha256.is_some() || taken {
                    return Err(
                        Error::bad("UDP RADIUS requires one shared-secret NAS per peer IP"),
                    );
                }
            },
            Transport::Tls => {
                if n.shared_secret_file.is_some() || !is_good_pin(&n.certificate_sha256) || taken {
                    return Err(
                        Error::bad(
                            "RadSec requires a unique peer/certificate pin and uses the fixed radsec protocol secret",
                        ),
                    );
                }
            },
        }
        Ok(())
    }

    #[verifier::loop_isolation(false)]
    pub fn validate(&self, rules: &Rules) -> (r: Result<(), Error>)
        ensures
            agrees(r, radius_listener_check(self@, rules@)),
    {
        if let Some(e) = &self.eap_tls {
            if let Err(x) = e.validate() {
                return Err(x);
            }
        }
        let keys = self.nas.keys();
        let n: usize = keys.len();
        if n == 0 || n > 128 {
            return Err(Error::bad("RADIUS requires one to 128 explicit NAS entries"));
        }
        let ghost all = in_order(keys@);
        let mut i: usize = 0;
        while i < n
            invariant
                i <= n,
                nas_checks(self@, all, i as nat, rules@) is Ok,
            decreases n - i,
        {
            if let Err(e) = self.check_nas(&keys, i, rules) {
                proof {
                    assert(nas_checks(self@, all, (i + 1) as nat, rules@) is Err);
                    lemma_nas_fails(self@, all, (i + 1) as nat, n as nat, rules@);
                }
                return Err(e);
            }
            i = i + 1;
        }
        let wrong = match self.transport {
            Transport::Tls => self.tls_cert_file.is_none() || self.tls_key_file.is_none()
                || self.client_ca_file.is_none(),
            Transport::Udp => self.tls_cert_file.is_some() || self.tls_key_file.is_some()
                || self.client_ca_file.is_some(),
        };
        if wrong {
            return Err(
                Error::bad(
                    "RadSec requires server certificate/key and private client CA files; UDP has no TLS files",
                ),
            );
        }
        Ok(())
    }
}

/// A text without the line ends at its end.
pub open spec fn without_line_end(s: Seq<char>) -> Seq<char>
    decreases s.len(),
{
    if s.len() > 0 && (s.last() == '\r' || s.last() == '\n') {
        without_line_end(s.drop_last())
    } else {
        s
    }
}

/// The shared secret that a private file holds.
pub open spec fn shared_secret(text: Seq<char>) -> Result<Seq<char>, Failure> {
    let s = without_line_end(text);
    if byte_count(s) < 32 || !all_graphic(s) {
        Err(
            Failure::Bad(
                "RADIUS shared secret requires 32..1024 non-whitespace ASCII bytes in a private file"@,
            ),
        )
    } else {
        Ok(s)
    }
}

/// The secret of a server: over TLS the fixed one, else what its private file holds.
pub fn secret(text: &str, tls: bool) -> (r: Result<String, Error>)
    ensures
        agrees_with(
            r,
            if tls {
                Ok("radsec"@)
            } else {
                shared_secret(text@)
            },
        ),
{
    if tls {
        return Ok("radsec".to_owned());
    }
    let v = chars_of(text);
    let mut end: usize = v.len();
    assert(v@.take(end as int) =~= text@);
    while end > 0 && (v[end - 1] == '\r' || v[end - 1] == '\n')
        invariant
            end <= v.len(),
            v@ == text@,
            without_line_end(v@.take(end as int)) == without_line_end(text@),
        decreases end,
    {
        assert(v@.take(end as int).drop_last() =~= v@.take(end - 1));
        end = end - 1;
    }
    let s = slice_of(&v, 0, end);
    assert(v@.subrange(0, end as int) =~= v@.take(end as int));
    if byte_len(s.as_str()) < 32 || !is_graphic(s.as_str()) {
        return Err(
            Error::bad(
                "RADIUS shared secret requires 32..1024 non-whitespace ASCII bytes in a private file",
            ),
        );
    }
    Ok(s)
}

/// The value that a reply attribute takes for this user.
pub open spec fn resolved_value(v: ReplyValueModel, user: UserModel) -> Result<
    ReplyValueModel,
    Failure,
> {
    match v {
        ReplyValueModel::Attribute(name) => if user.attributes.dom().contains(name) {
            match user.attributes[name] {
                JsonModel::Text(t) => if reply_text(t) {
                    Ok(ReplyValueModel::Text(t))
                } else {
                    Err(unresolved())
                },
                JsonModel::Unsigned(n) => if n <= u32::MAX {
                    Ok(ReplyValueModel::Integer(n as u32))
                } else {
                    Err(Failure::Bad("RADIUS attribute is too large"@))
                },
                JsonModel::Negative(_) => Err(Failure::Bad("RADIUS attribute must be unsigned"@)),
                JsonModel::Fraction(_) => Err(Failure::Bad("RADIUS attribute must be unsigned"@)),
                _ => Err(unresolved()),
            }
        } else {
            Err(unresolved())
        },
        other => Ok(other),
    }
}

pub open spec fn unresolved() -> Failure {
    Failure::Bad("RADIUS reply attribute requires a configured text or integer user attribute"@)
}

/// The four bytes of a number.
pub open spec fn bytes32(n: nat) -> Seq<u8> {
    seq![
        ((n / 16777216) % 256) as u8,
        ((n / 65536) % 256) as u8,
        ((n / 256) % 256) as u8,
        (n % 256) as u8,
    ]
}

/// The bytes of a resolved value.
pub open spec fn value_bytes(v: ReplyValueModel) -> Seq<u8> {
    match v {
        ReplyValueModel::Text(t) => encode_utf8(t),
        ReplyValueModel::Integer(n) => bytes32(n as nat),
        ReplyValueModel::Ipv4(a, b, c, d) => seq![a, b, c, d],
        ReplyValueModel::Attribute(_) => Seq::empty(),
    }
}

/// An attribute on the wire. A tunnel's group id has a tag of zero before it.
pub open spec fn wire_attribute(a: AttributeModel, user: UserModel) -> Result<
    (u8, Seq<u8>),
    Failure,
> {
    match a {
        AttributeModel::Standard { code, value } => match resolved_value(value, user) {
            Err(f) => Err(f),
            Ok(v) => match type_check(code, v) {
                Err(f) => Err(f),
                Ok(_) => Ok(
                    (
                        code,
                        if code == 81 {
                            seq![0u8] + value_bytes(v)
                        } else {
                            value_bytes(v)
                        },
                    ),
                ),
            },
        },
        AttributeModel::Vendor { vendor, code, value } => match resolved_value(value, user) {
            Err(f) => Err(f),
            Ok(v) => Ok(
                (
                    26,
                    bytes32(vendor as nat) + seq![code, ((value_bytes(v).len() + 2) % 256) as u8]
                        + value_bytes(v),
                ),
            ),
        },
    }
}

pub open spec fn wire_attributes(v: Seq<AttributeModel>, user: UserModel) -> Result<
    Seq<(u8, Seq<u8>)>,
    Failure,
>
    decreases v.len(),
{
    if v.len() == 0 {
        Ok(Seq::empty())
    } else {
        match wire_attributes(v.drop_last(), user) {
            Err(f) => Err(f),
            Ok(rest) => match wire_attribute(v.last(), user) {
                Err(f) => Err(f),
                Ok(x) => Ok(rest.push(x)),
            },
        }
    }
}

proof fn lemma_wire_fails(v: Seq<AttributeModel>, user: UserModel, n: int)
    requires
        0 <= n <= v.len(),
        wire_attributes(v.take(n), user) is Err,
    ensures
        wire_attributes(v, user) == wire_attributes(v.take(n), user),
    decreases v.len() - n,
{
    if n < v.len() {
        assert(v.take(n + 1).drop_last() =~= v.take(n));
        lemma_wire_fails(v, user, n + 1);
    } else {
        assert(v.take(n) =~= v);
    }
}

fn resolve(v: &ReplyValue, user: &User) -> (r: Result<ReplyValue, Error>)
    ensures
        agrees_with(r, resolved_value(v@, user@)),
{
    match v {
        ReplyValue::Attribute(name) => match user.attributes.get(name.as_str()) {
            Some(Json::Text(t)) => {
                if t.as_str().is_empty() || byte_len(t.as_str()) > 200 || has_control(t.as_str()) {
                    Err(
                        Error::bad(
                            "RADIUS reply attribute requires a configured text or integer user attribute",
                        ),
                    )
                } else {
                    Ok(ReplyValue::Text(t.clone()))
                }
            },
            Some(Json::Unsigned(n)) => {
                if *n <= 4294967295 {
                    Ok(ReplyValue::Integer(*n as u32))
                } else {
                    Err(Error::bad("RADIUS attribute is too large"))
                }
            },
            Some(Json::Negative(_)) => Err(Error::bad("RADIUS attribute must be unsigned")),
            Some(Json::Fraction(_)) => Err(Error::bad("RADIUS attribute must be unsigned")),
            _ => Err(
                Error::bad(
                    "RADIUS reply attribute requires a configured text or integer user attribute",
                ),
            ),
        },
        other => Ok(other.dup()),
    }
}

/// The four bytes of a number, the highest first.
pub fn to_bytes32(n: u32) -> (r: Vec<u8>)
    ensures
        r@ == bytes32(n as nat),
{
    let mut out: Vec<u8> = Vec::new();
    out.push(((n / 16777216) % 256) as u8);
    out.push(((n / 65536) % 256) as u8);
    out.push(((n / 256) % 256) as u8);
    out.push((n % 256) as u8);
    assert(out@ =~= bytes32(n as nat));
    out
}

fn to_value_bytes(v: &ReplyValue) -> (r: Vec<u8>)
    ensures
        r@ == value_bytes(v@),
{
    match v {
        ReplyValue::Text(t) => utf8_of(t.as_str()),
        ReplyValue::Integer(n) => to_bytes32(*n),
        ReplyValue::Ipv4(a, b, c, d) => {
            let mut out: Vec<u8> = Vec::new();
            out.push(*a);
            out.push(*b);
            out.push(*c);
            out.push(*d);
            assert(out@ =~= seq![*a, *b, *c, *d]);
            out
        },
        ReplyValue::Attribute(_) => {
            let out: Vec<u8> = Vec::new();
            assert(out@ =~= Seq::<u8>::empty());
            out
        },
    }
}

/// The UTF-8 bytes of a text.
pub fn utf8_of(s: &str) -> (r: Vec<u8>)
    ensures
        r@ == encode_utf8(s@),
{
    let b = s.as_bytes();
    let mut out: Vec<u8> = Vec::new();
    let mut i: usize = 0;
    while i < b.len()
        invariant
            i <= b@.len(),
            b@ == encode_utf8(s@),
            out@ == b@.take(i as int),
        decreases b@.len() - i,
    {
        out.push(b[i]);
        assert(b@.take(i + 1) =~= b@.take(i as int).push(b@[i as int]));
        i = i + 1;
    }
    assert(b@.take(i as int) =~= b@);
    out
}

fn write_attribute(a: &Attribute, user: &User) -> (r: Result<(u8, Vec<u8>), Error>)
    ensures
        match wire_attribute(a@, user@) {
            Ok(p) => r is Ok && (r->Ok_0).0 == p.0 && (r->Ok_0).1@ == p.1,
            Err(f) => fails(r, f),
        },
{
    match a {
        Attribute::Standard { code, value } => {
            let v = match resolve(value, user) {
                Err(e) => return Err(e),
                Ok(v) => v,
            };
            if let Err(e) = validate_type(*code, &v) {
                return Err(e);
            }
            let bytes = to_value_bytes(&v);
            if *code == 81 {
                let mut out: Vec<u8> = Vec::new();
                out.push(0);
                assert(out@ =~= seq![0u8]);
                append_bytes(&mut out, &bytes);
                Ok((*code, out))
            } else {
                Ok((*code, bytes))
            }
        },
        Attribute::Vendor { vendor, code, value } => {
            let v = match resolve(value, user) {
                Err(e) => return Err(e),
                Ok(v) => v,
            };
            let bytes = to_value_bytes(&v);
            let mut out = to_bytes32(*vendor);
            let ghost head = out@;
            out.push(*code);
            out.push(((bytes.len() % 256 + 2) % 256) as u8);
            assert(out@ =~= head + seq![*code, ((bytes@.len() + 2) % 256) as u8]);
            append_bytes(&mut out, &bytes);
            Ok((26, out))
        },
    }
}

impl Settings {
    /// The attributes of an accepted reply to this user.
    #[verifier::loop_isolation(false)]
    pub fn attributes(&self, user: &User) -> (r: Result<Vec<(u8, Vec<u8>)>, Error>)
        ensures
            match wire_attributes(self@.reply, user@) {
                Ok(p) => r is Ok && wire_pairs(r->Ok_0@) == p,
                Err(f) => fails(r, f),
            },
    {
        let ghost all = self@.reply;
        let mut out: Vec<(u8, Vec<u8>)> = Vec::new();
        let mut i: usize = 0;
        assert(all.take(0) =~= Seq::<AttributeModel>::empty());
        assert(wire_pairs(out@) =~= Seq::<(u8, Seq<u8>)>::empty());
        while i < self.reply.len()
            invariant
                i <= self.reply.len(),
                wire_attributes(all.take(i as int), user@) == Ok::<Seq<(u8, Seq<u8>)>, Failure>(
                    wire_pairs(out@),
                ),
            decreases self.reply.len() - i,
        {
            proof {
                assert(all.take(i + 1).drop_last() =~= all.take(i as int));
                assert(all.take(i + 1).last() == self.reply[i as int]@);
            }
            match write_attribute(&self.reply[i], user) {
                Err(e) => {
                    proof {
                        lemma_wire_fails(all, user@, i + 1);
                    }
                    return Err(e);
                },
                Ok(p) => {
                    push_attribute(&mut out, p.0, p.1);
                },
            }
            i = i + 1;
        }
        assert(all.take(i as int) =~= all);
        Ok(out)
    }
}

/// A reply attribute is sent with the code and the value that were configured, or with the value that
/// the user has.
pub proof fn reply_attributes_are_sent_as_configured(
    a: AttributeModel,
    user: UserModel,
    code: u8,
    n: u32,
    t: Seq<char>,
    name: Seq<char>,
    vendor: u32,
)
    ensures
        a == (AttributeModel::Standard { code, value: ReplyValueModel::Integer(n) }) && wire_attribute(
            a,
            user,
        ) is Ok && code != 81 ==> wire_attribute(a, user) == Ok::<(u8, Seq<u8>), Failure>(
            (
                code,
                seq![
                    ((n / 16777216) % 256) as u8,
                    ((n / 65536) % 256) as u8,
                    ((n / 256) % 256) as u8,
                    (n % 256) as u8,
                ],
            ),
        ),
        a == (AttributeModel::Standard { code, value: ReplyValueModel::Text(t) }) && wire_attribute(
            a,
            user,
        ) is Ok && code != 81 ==> wire_attribute(a, user) == Ok::<(u8, Seq<u8>), Failure>(
            (code, encode_utf8(t)),
        ),
        a == (AttributeModel::Standard { code, value: ReplyValueModel::Attribute(name) })
            && wire_attribute(a, user) is Ok && user.attributes[name] == JsonModel::Text(t) && code
            != 81 ==> wire_attribute(a, user) == Ok::<(u8, Seq<u8>), Failure>((code, encode_utf8(t))),
        a == (AttributeModel::Standard { code, value: ReplyValueModel::Attribute(name) })
            && !user.attributes.dom().contains(name) ==> wire_attribute(a, user) is Err,
        a == (AttributeModel::Vendor { vendor, code, value: ReplyValueModel::Text(t) })
            ==> wire_attribute(a, user) is Ok && (wire_attribute(a, user)->Ok_0).0 == 26 && (
        wire_attribute(a, user)->Ok_0).1.skip(6) == encode_utf8(t) && (wire_attribute(
            a,
            user,
        )->Ok_0).1[4] == code,
{
    if a == (AttributeModel::Vendor { vendor, code, value: ReplyValueModel::Text(t) }) {
        let w = (wire_attribute(a, user)->Ok_0).1;
        assert(w.skip(6) =~= encode_utf8(t));
    }
}

/// Every configured attribute is sent, in order.
pub proof fn all_reply_attributes_are_sent(v: Seq<AttributeModel>, user: UserModel)
    requires
        wire_attributes(v, user) is Ok,
    ensures
        (wire_attributes(v, user)->Ok_0).len() == v.len(),
        forall|i: int|
            0 <= i < v.len() ==> wire_attribute(#[trigger] v[i], user) == Ok::<
                (u8, Seq<u8>),
                Failure,
            >((wire_attributes(v, user)->Ok_0)[i]),
    decreases v.len(),
{
    if v.len() > 0 {
        all_reply_attributes_are_sent(v.drop_last(), user);
        let rest = wire_attributes(v.drop_last(), user)->Ok_0;
        assert forall|i: int| 0 <= i < v.len() implies wire_attribute(#[trigger] v[i], user) == Ok::<
            (u8, Seq<u8>),
            Failure,
        >((wire_attributes(v, user)->Ok_0)[i]) by {
            if i < v.len() - 1 {
                assert(v.drop_last()[i] == v[i]);
            }
        }
    }
}

/// A shared secret is at least 32 characters of plain text, without the line end of its file.
pub proof fn shared_secrets_are_long(text: Seq<char>)
    requires
        text.len() > 0,
        text.last() != '\r' && text.last() != '\n',
    ensures
        shared_secret(text) is Ok <==> byte_count(text) >= 32 && all_graphic(text),
        shared_secret(text) matches Ok(s) ==> s == text,
        shared_secret(text.push('\n')) == shared_secret(text),
{
    assert(text.push('\n').drop_last() =~= text);
    assert(text.push('\n').last() == '\n');
}

/// A network server over UDP has a shared secret and an address of its own; one over TLS is known by
/// its certificate, and has no secret. Neither stands on an address of many.
pub proof fn servers_are_known_by_one_credential(
    l: ListenerModel,
    keys: Seq<Seq<char>>,
    i: int,
    rules: RulesModel,
)
    requires
        0 <= i < keys.len(),
        nas_check(l, keys, i, rules) is Ok,
    ensures
        ({
            let n = l.nas[keys[i]];
            &&& !rules.bad_names.contains(keys[i])
            &&& !rules.bad_names.contains(n.client_id)
            &&& !not_unicast(n.peer)
            &&& l.transport == Transport::Udp ==> n.shared_secret_file is Some && n.certificate_sha256 is None
                && forall|j: int| 0 <= j < i ==> l.nas[#[trigger] keys[j]].peer != n.peer
            &&& l.transport == Transport::Tls ==> n.shared_secret_file is None && n.certificate_sha256 is Some
                && byte_count(n.certificate_sha256->0) == 43 && forall|j: int|
                0 <= j < i ==> l.nas[#[trigger] keys[j]].peer != n.peer || l.nas[keys[j]].certificate_sha256
                    != n.certificate_sha256
        }),
{
    let n = l.nas[keys[i]];
    assert forall|j: int| 0 <= j < i implies !same_peer(l.transport, l.nas[#[trigger] keys[j]], n) by {
        if same_peer(l.transport, l.nas[keys[j]], n) {
            assert(exists|k: int|
                0 <= k < i && same_peer(l.transport, l.nas[#[trigger] keys[k]], n));
        }
    }
}

/// A listener serves one to a hundred and twenty-eight servers; over TLS it has its certificate, key and
/// authority, and over UDP none of them.
pub proof fn radius_listeners_have_their_files(l: ListenerModel, rules: RulesModel)
    ensures
        radius_listener_check(l, rules) is Ok ==> {
            &&& 1 <= l.nas.dom().len() <= 128
            &&& l.transport == Transport::Tls ==> l.tls_cert_file is Some && l.tls_key_file is Some
                && l.client_ca_file is Some
            &&& l.transport == Transport::Udp ==> l.tls_cert_file is None && l.tls_key_file is None
                && l.client_ca_file is None
            &&& l.eap_tls matches Some(e) ==> eap_config_check(e) is Ok
            &&& nas_checks(l, in_order(l.nas.dom()), in_order(l.nas.dom()).len(), rules) is Ok
        },
        1 <= l.nas.dom().len() <= 128 && l.eap_tls is None && nas_checks(
            l,
            in_order(l.nas.dom()),
            in_order(l.nas.dom()).len(),
            rules,
        ) is Ok && l.transport == Transport::Udp && l.tls_cert_file is None && l.tls_key_file is None
            && l.client_ca_file is None ==> radius_listener_check(l, rules) is Ok,
{
}

/// A value of a user's attribute is that attribute: a text that can be sent, or a number that fits.
pub proof fn attributes_are_taken_from_the_user(name: Seq<char>, user: UserModel, v: ReplyValueModel)
    ensures
        !user.attributes.dom().contains(name) ==> resolved_value(ReplyValueModel::Attribute(name), user) is Err,
        user.attributes.dom().contains(name) ==> match user.attributes[name] {
            JsonModel::Text(t) => resolved_value(ReplyValueModel::Attribute(name), user) is Ok <==> reply_text(t),
            JsonModel::Unsigned(n) => resolved_value(ReplyValueModel::Attribute(name), user) is Ok <==> n
                < 0x1_0000_0000,
            _ => resolved_value(ReplyValueModel::Attribute(name), user) is Err,
        },
        resolved_value(ReplyValueModel::Attribute(name), user) matches Ok(ReplyValueModel::Text(t))
            ==> user.attributes[name] == JsonModel::Text(t),
        resolved_value(ReplyValueModel::Attribute(name), user) matches Ok(ReplyValueModel::Integer(n))
            ==> user.attributes[name] == JsonModel::Unsigned(n as u64),
        !(v is Attribute) ==> resolved_value(v, user) == Ok::<ReplyValueModel, Failure>(v),
{
}

} // verus!
