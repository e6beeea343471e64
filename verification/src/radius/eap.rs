//! EAP-TLS: bounded fragmentation, the course of a conversation, and key delivery.
use crate::engine::extended;
use crate::error::{Error, Failure, agrees, agrees_with, fails};
use crate::model::{Identity, IdentityModel};
use crate::outside::{base64url, base64url_of, byte_lists, digest, digest_of, md5, string_from_bytes, wire_pairs};
use crate::radius::packet::{Packet, append_bytes, bytes16, bytes_between, first_value, hidden, hidden_text_is_found_again, mask, masked, number16, push_attribute, unmasked, zeros};
use crate::radius::requests::{bytes32, to_bytes32, utf8_of};
use crate::table::{Row, opt_view};
use crate::text::{concat3, copy_bytes, has_control, opt_text, same, some_control};
use vstd::utf8::{decode_utf8, encode_utf8, encode_utf8_decode_utf8, valid_utf8};
use vstd::prelude::*;
use vstd::string::*;

verus! {

/// The assurance that a bound certificate gives.
pub const CERTIFICATE_ACR: &'static str = "urn:riauth:acr:certificate";

/// The trust material of a listener, and how it fragments.
pub struct Config {
    pub certificate_file: String,
    pub key_file: String,
    pub client_ca_file: String,
    pub client_crl_file: String,
    pub ocsp_response_file: Option<String>,
    pub tls12: bool,
    pub fragment_size: usize,
}

/// What a [`Config`] holds.
pub struct ConfigModel {
    pub certificate_file: Seq<char>,
    pub key_file: Seq<char>,
    pub client_ca_file: Seq<char>,
    pub client_crl_file: Seq<char>,
    pub ocsp_response_file: Option<Seq<char>>,
    pub tls12: bool,
    pub fragment_size: usize,
}

impl View for Config {
    type V = ConfigModel;

    open spec fn view(&self) -> ConfigModel {
        ConfigModel {
            certificate_file: self.certificate_file@,
            key_file: self.key_file@,
            client_ca_file: self.client_ca_file@,
            client_crl_file: self.client_crl_file@,
            ocsp_response_file: crate::text::opt_text(self.ocsp_response_file),
            tls12: self.tls12,
            fragment_size: self.fragment_size,
        }
    }
}

impl Row for Config {
    fn dup(&self) -> (r: Self) {
        Config {
            certificate_file: self.certificate_file.clone(),
            key_file: self.key_file.clone(),
            client_ca_file: self.client_ca_file.clone(),
            client_crl_file: self.client_crl_file.clone(),
            ocsp_response_file: crate::text::copy_opt(&self.ocsp_response_file),
            tls12: self.tls12,
            fragment_size: self.fragment_size,
        }
    }
}

pub open spec fn eap_config_check(c: ConfigModel) -> Result<(), Failure> {
    if 256 <= c.fragment_size <= 1400 {
        Ok(())
    } else {
        Err(Failure::Bad("EAP-TLS fragment_size must be 256..1400 bytes"@))
    }
}

impl Config {
    pub fn validate(&self) -> (r: Result<(), Error>)
        ensures
            agrees(r, eap_config_check(self@)),
    {
        if self.fragment_size < 256 || self.fragment_size > 1400 {
            return Err(Error::bad("EAP-TLS fragment_size must be 256..1400 bytes"));
        }
        Ok(())
    }
}

/// The EAP bytes that the attributes of a packet carry.
pub open spec fn eap_bytes(attrs: Seq<(u8, Seq<u8>)>) -> Seq<u8>
    decreases attrs.len(),
{
    if attrs.len() == 0 {
        Seq::empty()
    } else if attrs.last().0 == 79 {
        eap_bytes(attrs.drop_last()) + attrs.last().1
    } else {
        eap_bytes(attrs.drop_last())
    }
}

/// An EAP attribute, another one, and an EAP attribute again.
pub open spec fn interrupted(attrs: Seq<(u8, Seq<u8>)>) -> bool {
    exists|i: int, j: int, k: int|
        0 <= i < j < k < attrs.len() && (#[trigger] attrs[i]).0 == 79 && (#[trigger] attrs[j]).0 != 79
            && (#[trigger] attrs[k]).0 == 79
}

/// The EAP response that a request carries.
pub open spec fn eap_message(attrs: Seq<(u8, Seq<u8>)>) -> Result<Seq<u8>, Failure> {
    let b = eap_bytes(attrs);
    if interrupted(attrs) {
        Err(Failure::Bad("EAP-Message attributes must be consecutive"@))
    } else if b.len() < 5 || b[0] != 2 || number16(b[2], b[3]) != b.len() {
        Err(Failure::Bad("Invalid EAP Response"@))
    } else {
        Ok(b)
    }
}

#[verifier::loop_isolation(false)]
fn is_interrupted(attrs: &Vec<(u8, Vec<u8>)>) -> (r: bool)
    ensures
        r == interrupted(wire_pairs(attrs@)),
{
    let ghost all = wire_pairs(attrs@);
    let mut seen = false;
    let mut ended = false;
    let ghost mut first: int = 0;
    let ghost mut gap: int = 0;
    let mut i: usize = 0;
    while i < attrs.len()
        invariant
            i <= attrs.len(),
            seen ==> 0 <= first < i && all[first].0 == 79,
            ended ==> seen && first < gap < i && all[gap].0 != 79,
            !seen ==> forall|k: int| 0 <= k < i ==> (#[trigger] all[k]).0 != 79,
            !ended ==> forall|k: int, l: int|
                0 <= k < l < i && (#[trigger] all[k]).0 == 79 ==> (#[trigger] all[l]).0 == 79,
            ended ==> forall|k: int| gap <= k < i ==> (#[trigger] all[k]).0 != 79,
            ended ==> forall|k: int, l: int|
                0 <= k < l < gap && (#[trigger] all[k]).0 == 79 ==> (#[trigger] all[l]).0 == 79,
        decreases attrs.len() - i,
    {
        assert(all[i as int].0 == attrs[i as int].0);
        if attrs[i].0 == 79 {
            if ended {
                assert(all[first].0 == 79 && all[gap].0 != 79 && all[i as int].0 == 79);
                return true;
            }
            if !seen {
                proof {
                    first = i as int;
                }
            }
            seen = true;
        } else if seen {
            if !ended {
                proof {
                    gap = i as int;
                }
            }
            ended = true;
        }
        i = i + 1;
    }
    proof {
        if interrupted(all) {
            let (a, b, c) = choose|a: int, b: int, c: int|
                0 <= a < b < c < all.len() && (#[trigger] all[a]).0 == 79 && (#[trigger] all[b]).0
                    != 79 && (#[trigger] all[c]).0 == 79;
            assert(all[a].0 == 79 && all[b].0 != 79 && all[c].0 == 79);
            assert(false);
        }
    }
    false
}

#[verifier::loop_isolation(false)]
fn collect_eap(attrs: &Vec<(u8, Vec<u8>)>) -> (r: Vec<u8>)
    ensures
        r@ == eap_bytes(wire_pairs(attrs@)),
{
    let ghost all = wire_pairs(attrs@);
    let mut out: Vec<u8> = Vec::new();
    let mut i: usize = 0;
    assert(all.take(0) =~= Seq::<(u8, Seq<u8>)>::empty());
    while i < attrs.len()
        invariant
            i <= attrs.len(),
            out@ == eap_bytes(all.take(i as int)),
        decreases attrs.len() - i,
    {
        proof {
            assert(all[i as int] == (attrs[i as int].0, attrs[i as int].1@));
            assert(all.take(i + 1).drop_last() =~= all.take(i as int));
            assert(all.take(i + 1).last() == all[i as int]);
        }
        if attrs[i].0 == 79 {
            append_bytes(&mut out, &attrs[i].1);
        }
        i = i + 1;
    }
    assert(all.take(i as int) =~= all);
    out
}

/// Reads the EAP response of a request.
pub fn message(packet: &Packet) -> (r: Result<Vec<u8>, Error>)
    ensures
        match eap_message(packet@.attrs) {
            Ok(b) => r is Ok && r->Ok_0@ == b,
            Err(f) => fails(r, f),
        },
{
    if is_interrupted(&packet.attrs) {
        return Err(Error::bad("EAP-Message attributes must be consecutive"));
    }
    let b = collect_eap(&packet.attrs);
    if b.len() < 5 || b[0] != 2 || (b[2] as usize) * 256 + (b[3] as usize) != b.len() {
        return Err(Error::bad("Invalid EAP Response"));
    }
    Ok(b)
}

/// An EAP packet.
pub open spec fn eap_packet(code: u8, id: u8, method: Option<u8>, data: Seq<u8>) -> Seq<u8> {
    let m = match method {
        Some(x) => seq![x],
        None => Seq::empty(),
    };
    seq![code, id] + bytes16(4 + m.len() + data.len()) + m + data
}

pub fn write_packet(code: u8, id: u8, method: Option<u8>, data: &Vec<u8>) -> (r: Vec<u8>)
    requires
        data.len() <= 65541,
    ensures
        r@ == eap_packet(code, id, method, data@),
{
    let extra: usize = match method {
        Some(_) => 1,
        None => 0,
    };
    let len: usize = 4 + extra + data.len();
    let mut out: Vec<u8> = Vec::new();
    out.push(code);
    out.push(id);
    out.push(((len / 256) % 256) as u8);
    out.push((len % 256) as u8);
    let ghost head = out@;
    assert(head =~= seq![code, id] + bytes16(len as nat));
    match method {
        Some(x) => {
            out.push(x);
            assert(out@ =~= head + seq![x]);
        },
        None => {
            assert(out@ =~= head + Seq::<u8>::empty());
        },
    }
    append_bytes(&mut out, data);
    out
}

/// The bytes cut into pieces of `n`, the last perhaps shorter.
pub open spec fn pieces(b: Seq<u8>, n: nat) -> Seq<Seq<u8>>
    decreases b.len(),
{
    if n == 0 || b.len() == 0 {
        Seq::empty()
    } else if b.len() <= n {
        seq![b]
    } else {
        seq![b.take(n as int)] + pieces(b.skip(n as int), n)
    }
}

/// The pieces in a row.
pub open spec fn glued(v: Seq<Seq<u8>>) -> Seq<u8>
    decreases v.len(),
{
    if v.len() == 0 {
        Seq::empty()
    } else {
        v[0] + glued(v.drop_first())
    }
}

/// Cutting loses nothing.
pub proof fn pieces_make_the_whole(b: Seq<u8>, n: nat)
    requires
        n > 0,
    ensures
        glued(pieces(b, n)) == b,
        forall|i: int| 0 <= i < pieces(b, n).len() ==> 0 < (#[trigger] pieces(b, n)[i]).len() <= n,
    decreases b.len(),
{
    if b.len() == 0 {
        assert(glued(pieces(b, n)) =~= b);
    } else if b.len() <= n {
        reveal_with_fuel(glued, 2);
        assert(seq![b].drop_first() =~= Seq::<Seq<u8>>::empty());
        assert(pieces(b, n) == seq![b]);
        assert(glued(seq![b]) == b + glued(Seq::<Seq<u8>>::empty()));
        assert(glued(pieces(b, n)) =~= b);
    } else {
        let rest = pieces(b.skip(n as int), n);
        pieces_make_the_whole(b.skip(n as int), n);
        let all = pieces(b, n);
        assert(all.drop_first() =~= rest);
        assert(glued(all) =~= b);
        assert forall|i: int| 0 <= i < all.len() implies 0 < (#[trigger] all[i]).len() <= n by {
            if i > 0 {
                assert(all[i] == rest[i - 1]);
            }
        }
    }
}

#[verifier::loop_isolation(false)]
fn cut(b: &Vec<u8>, n: usize) -> (r: Vec<Vec<u8>>)
    requires
        n > 0,
    ensures
        byte_lists(r@) == pieces(b@, n as nat),
{
    let mut out: Vec<Vec<u8>> = Vec::new();
    let mut at: usize = 0;
    assert(b@.skip(0) =~= b@);
    assert(byte_lists(out@) + pieces(b@, n as nat) =~= pieces(b@, n as nat));
    while at < b.len()
        invariant
            at <= b.len(),
            byte_lists(out@) + pieces(b@.skip(at as int), n as nat) == pieces(b@, n as nat),
        decreases b.len() - at,
    {
        let ghost was = byte_lists(out@);
        let ghost rest = b@.skip(at as int);
        let to: usize = if b.len() - at <= n {
            b.len()
        } else {
            at + n
        };
        let piece = bytes_between(b, at, to);
        let ghost pm = piece@;
        out.push(piece);
        proof {
            assert(byte_lists(out@) =~= was.push(pm));
            if rest.len() <= n {
                assert(pm =~= rest);
                assert(b@.skip(to as int) =~= Seq::<u8>::empty());
                assert(was.push(pm) + pieces(b@.skip(to as int), n as nat) =~= was + seq![rest]);
            } else {
                assert(pm =~= rest.take(n as int));
                assert(b@.skip(to as int) =~= rest.skip(n as int));
                assert(was.push(pm) + pieces(rest.skip(n as int), n as nat) =~= was + (seq![
                    rest.take(n as int),
                ] + pieces(rest.skip(n as int), n as nat)));
            }
        }
        at = to;
    }
    assert(b@.skip(at as int) =~= Seq::<u8>::empty());
    assert(byte_lists(out@) + Seq::<Seq<u8>>::empty() =~= byte_lists(out@));
    out
}

/// The attributes that carry an EAP packet, and the state that leads back to the conversation.
pub open spec fn eap_attributes(eap: Seq<u8>, state: Option<Seq<char>>) -> Seq<(u8, Seq<u8>)> {
    let v = pieces(eap, 253).map_values(|p: Seq<u8>| (79u8, p));
    match state {
        Some(s) => v.push((24u8, encode_utf8(s))),
        None => v,
    }
}

#[verifier::loop_isolation(false)]
pub fn attributes(eap: &Vec<u8>, state: &Option<String>) -> (r: Vec<(u8, Vec<u8>)>)
    ensures
        wire_pairs(r@) == eap_attributes(eap@, opt_text(*state)),
{
    let list = cut(eap, 253);
    let ghost want = pieces(eap@, 253).map_values(|p: Seq<u8>| (79u8, p));
    let mut out: Vec<(u8, Vec<u8>)> = Vec::new();
    let mut i: usize = 0;
    assert(wire_pairs(out@) =~= want.take(0));
    while i < list.len()
        invariant
            i <= list.len(),
            wire_pairs(out@) == want.take(i as int),
        decreases list.len() - i,
    {
        assert(byte_lists(list@)[i as int] == list[i as int]@);
        let x = copy_bytes(&list[i]);
        push_attribute(&mut out, 79, x);
        assert(want.take(i + 1) =~= want.take(i as int).push((79u8, list[i as int]@)));
        i = i + 1;
    }
    assert(want.take(i as int) =~= want);
    if let Some(s) = state {
        let b = utf8_of(s.as_str());
        push_attribute(&mut out, 24, b);
    }
    out
}

/// What a carried EAP packet is read as is the packet.
pub proof fn carried_packets_arrive_whole(eap: Seq<u8>, state: Option<Seq<char>>)
    ensures
        eap_bytes(eap_attributes(eap, state)) == eap,
        !interrupted(eap_attributes(eap, state)),
{
    let p = pieces(eap, 253);
    let v = p.map_values(|p: Seq<u8>| (79u8, p));
    pieces_make_the_whole(eap, 253);
    lemma_glued_bytes(p, v);
    if state is Some {
        let all = v.push((24u8, encode_utf8(state->0)));
        assert(all.drop_last() =~= v);
    }
}

proof fn lemma_glued_bytes(p: Seq<Seq<u8>>, v: Seq<(u8, Seq<u8>)>)
    requires
        v.len() == p.len(),
        forall|i: int| 0 <= i < v.len() ==> #[trigger] v[i] == (79u8, p[i]),
    ensures
        eap_bytes(v) == glued(p),
    decreases p.len(),
{
    if p.len() > 0 {
        lemma_glued_bytes(p.drop_last(), v.drop_last());
        lemma_glued_last(p);
        assert(v.last() == (79u8, p.last()));
    } else {
        assert(eap_bytes(v) =~= glued(p));
    }
}

proof fn lemma_glued_last(p: Seq<Seq<u8>>)
    requires
        p.len() > 0,
    ensures
        glued(p) == glued(p.drop_last()) + p.last(),
    decreases p.len(),
{
    if p.len() == 1 {
        assert(p.drop_first() =~= Seq::<Seq<u8>>::empty());
        assert(p.drop_last() =~= Seq::<Seq<u8>>::empty());
        assert(glued(p) =~= glued(p.drop_last()) + p.last());
    } else {
        lemma_glued_last(p.drop_first());
        assert(p.drop_first().drop_last() =~= p.drop_last().drop_first());
        assert(p.drop_first().last() == p.last());
        assert(glued(p) =~= glued(p.drop_last()) + p.last());
    }
}

/// The EAP failure that answers a request, or nothing where it carries no EAP response.
pub open spec fn failure_attributes(attrs: Seq<(u8, Seq<u8>)>) -> Seq<(u8, Seq<u8>)> {
    match eap_message(attrs) {
        Ok(m) => eap_attributes(eap_packet(4, m[1], None, Seq::empty()), None),
        Err(_) => Seq::empty(),
    }
}

pub fn failure(request: &Packet) -> (r: Vec<(u8, Vec<u8>)>)
    ensures
        wire_pairs(r@) == failure_attributes(request@.attrs),
{
    match message(request) {
        Ok(m) => {
            let none: Vec<u8> = Vec::new();
            assert(none@ =~= Seq::<u8>::empty());
            let p = write_packet(4, m[1], None, &none);
            attributes(&p, &None)
        },
        Err(_) => {
            let out: Vec<(u8, Vec<u8>)> = Vec::new();
            assert(wire_pairs(out@) =~= Seq::<(u8, Seq<u8>)>::empty());
            out
        },
    }
}

/// A conversation over several requests. The TLS state belongs to the server.
pub struct Conversation {
    pub context: String,
    pub profile_fingerprint: String,
    pub expires_at: u64,
    pub expected: u8,
    pub rounds: u16,
    pub received: Vec<u8>,
    pub total: Option<usize>,
    pub outbound: Vec<Vec<u8>>,
    pub identity: Option<Identity>,
    pub await_success: bool,
    pub fragment_size: usize,
}

/// What a [`Conversation`] holds.
pub struct ConversationModel {
    pub context: Seq<char>,
    pub profile_fingerprint: Seq<char>,
    pub expires_at: u64,
    pub expected: u8,
    pub rounds: u16,
    pub received: Seq<u8>,
    pub total: Option<usize>,
    pub outbound: Seq<Seq<u8>>,
    pub identity: Option<IdentityModel>,
    pub await_success: bool,
    pub fragment_size: usize,
}

impl View for Conversation {
    type V = ConversationModel;

    open spec fn view(&self) -> ConversationModel {
        ConversationModel {
            context: self.context@,
            profile_fingerprint: self.profile_fingerprint@,
            expires_at: self.expires_at,
            expected: self.expected,
            rounds: self.rounds,
            received: self.received@,
            total: self.total,
            outbound: byte_lists(self.outbound@),
            identity: opt_view(self.identity),
            await_success: self.await_success,
            fragment_size: self.fragment_size,
        }
    }
}

/// What a received response leads to.
pub enum Received {
    /// This is sent.
    Reply(Vec<u8>),
    /// The handshake of this identity is confirmed: its keys are delivered.
    Success(Identity),
    /// This complete flight goes to TLS.
    Flight(Vec<u8>),
}

/// What a [`Received`] holds.
pub enum ReceivedModel {
    Reply(Seq<u8>),
    Success(IdentityModel),
    Flight(Seq<u8>),
}

impl View for Received {
    type V = ReceivedModel;

    open spec fn view(&self) -> ReceivedModel {
        match *self {
            Received::Reply(b) => ReceivedModel::Reply(b@),
            Received::Success(i) => ReceivedModel::Success(i@),
            Received::Flight(b) => ReceivedModel::Flight(b@),
        }
    }
}

/// The conversation after its next request was numbered.
pub open spec fn numbered(c: ConversationModel) -> ConversationModel {
    ConversationModel { expected: ((c.expected + 1) % 256) as u8, ..c }
}

/// The next request of a conversation.
pub open spec fn next_request(c: ConversationModel, data: Seq<u8>) -> Seq<u8> {
    eap_packet(1, numbered(c).expected, Some(13), data)
}

/// The conversation with one more round.
pub open spec fn counted(c: ConversationModel) -> ConversationModel {
    ConversationModel {
        rounds: if c.rounds == u16::MAX {
            u16::MAX
        } else {
            (c.rounds + 1) as u16
        },
        ..c
    }
}

/// The data of an acknowledged fragment is followed by the next one.
pub open spec fn taken_fragment(c: ConversationModel, flags: u8, data: Seq<u8>) -> Result<
    (ConversationModel, ReceivedModel),
    Failure,
> {
    let long = flags & 0x80 != 0;
    let total = if long {
        Some((data[0] * 16777216 + data[1] * 65536 + data[2] * 256 + data[3]) as usize)
    } else {
        c.total
    };
    let part = if long {
        data.skip(4)
    } else {
        data
    };
    let all = c.received + part;
    if long && (data.len() < 4 || c.total is Some || c.received.len() > 0) {
        Err(Failure::Bad("Invalid EAP-TLS fragment length field"@))
    } else if long && (total->0 == 0 || total->0 > 65536) {
        Err(Failure::Bad("EAP-TLS flight exceeds 64 KiB"@))
    } else if part.len() == 0 || all.len() > 65536 {
        Err(Failure::Bad("Empty or oversized EAP-TLS input"@))
    } else if flags & 0x40 != 0 {
        if total is None || all.len() >= total->0 {
            Err(Failure::Bad("Invalid fragmented EAP-TLS input"@))
        } else {
            let next = ConversationModel { received: all, total, ..c };
            Ok((numbered(next), ReceivedModel::Reply(next_request(next, seq![0u8]))))
        }
    } else if total is Some && all.len() != total->0 {
        Err(Failure::Bad("Incomplete EAP-TLS flight"@))
    } else {
        Ok(
            (
                ConversationModel { received: Seq::empty(), total: None, ..c },
                ReceivedModel::Flight(all),
            ),
        )
    }
}

/// What a response leads to.
pub open spec fn taken(was: ConversationModel, input: Seq<u8>) -> Result<
    (ConversationModel, ReceivedModel),
    Failure,
> {
    let c = counted(was);
    if c.rounds > 256 || input[1] != c.expected || input[4] != 13 || input.len() < 6 {
        Err(Failure::Bad("Unexpected EAP-TLS response or sequence"@))
    } else {
        let flags = input[5];
        let data = input.skip(6);
        if flags & 0x3f != 0 {
            Err(Failure::Bad("Unsupported EAP-TLS flags"@))
        } else if c.outbound.len() > 0 {
            if flags != 0 || data.len() > 0 {
                Err(Failure::Bad("EAP-TLS fragment acknowledgement must be empty"@))
            } else {
                let next = ConversationModel { outbound: c.outbound.drop_first(), ..c };
                Ok((numbered(next), ReceivedModel::Reply(next_request(next, c.outbound[0]))))
            }
        } else if c.await_success {
            if flags != 0 || data.len() > 0 {
                Err(Failure::Bad("EAP-TLS success acknowledgement must be empty"@))
            } else {
                match c.identity {
                    Some(i) => Ok((c, ReceivedModel::Success(i))),
                    None => Err(Failure::Forbidden),
                }
            }
        } else {
            taken_fragment(c, flags, data)
        }
    }
}

/// The fragments of a flight: the first of several tells the whole length, all but the last
/// announce another one.
pub open spec fn fragment(parts: Seq<Seq<u8>>, total: nat, i: int) -> Seq<u8> {
    let more = if i + 1 < parts.len() {
        0x40u8
    } else {
        0u8
    };
    if parts.len() > 1 && i == 0 {
        seq![0x80u8 | more] + bytes32(total) + parts[i]
    } else {
        seq![more] + parts[i]
    }
}

pub open spec fn fragments(b: Seq<u8>, size: nat) -> Seq<Seq<u8>> {
    let parts = pieces(b, size);
    Seq::new(parts.len(), |i: int| fragment(parts, b.len(), i))
}

/// What follows once TLS took a flight: `finished` is whose handshake ended with it, `out` what TLS
/// sends.
pub open spec fn responded(
    was: ConversationModel,
    finished: Option<IdentityModel>,
    out: Seq<u8>,
) -> Result<(ConversationModel, Seq<u8>), Failure> {
    let c = if finished is Some {
        ConversationModel { identity: finished, await_success: true, ..was }
    } else {
        was
    };
    if out.len() > 65536 {
        Err(Failure::Bad("EAP-TLS output flight exceeds 64 KiB"@))
    } else if out.len() == 0 {
        Ok((numbered(c), next_request(c, seq![0u8])))
    } else {
        let f = c.outbound + fragments(out, c.fragment_size as nat);
        let next = ConversationModel { outbound: f.drop_first(), ..c };
        Ok((numbered(next), next_request(next, f[0])))
    }
}

fn one_byte(b: u8) -> (r: Vec<u8>)
    ensures
        r@ == seq![b],
{
    let mut v: Vec<u8> = Vec::new();
    v.push(b);
    assert(v@ =~= seq![b]);
    v
}

#[verifier::loop_isolation(false)]
fn make_fragments(b: &Vec<u8>, size: usize, out: &mut Vec<Vec<u8>>)
    requires
        size > 0,
        b.len() <= 65536,
    ensures
        byte_lists(final(out)@) == byte_lists(old(out)@) + fragments(b@, size as nat),
{
    let parts = cut(b, size);
    let ghost want = fragments(b@, size as nat);
    let ghost was = byte_lists(out@);
    let ghost pm = pieces(b@, size as nat);
    let n: usize = parts.len();
    assert(byte_lists(parts@).len() == parts.len());
    let mut i: usize = 0;
    assert(was + want.take(0) =~= was);
    while i < n
        invariant
            i <= n,
            byte_lists(out@) == was + want.take(i as int),
        decreases n - i,
    {
        assert(pm[i as int] == parts[i as int]@);
        let more: u8 = if i + 1 < n {
            0x40
        } else {
            0
        };
        let mut f: Vec<u8> = Vec::new();
        if n > 1 && i == 0 {
            f.push(0x80 | more);
            assert(f@ =~= seq![0x80u8 | more]);
            append_bytes(&mut f, &to_bytes32(b.len() as u32));
        } else {
            f.push(more);
            assert(f@ =~= seq![more]);
        }
        append_bytes(&mut f, &parts[i]);
        let ghost fm = f@;
        let ghost before = byte_lists(out@);
        out.push(f);
        proof {
            assert(byte_lists(out@) =~= before.push(fm));
            assert(want[i as int] == fragment(pm, b@.len(), i as int));
            assert(want.take(i + 1) =~= want.take(i as int).push(fm));
            assert(byte_lists(out@) =~= was + want.take(i + 1));
        }
        i = i + 1;
    }
    assert(want.take(i as int) =~= want);
}

impl Conversation {
    fn request(&mut self, data: &Vec<u8>) -> (r: Vec<u8>)
        requires
            data.len() <= 65541,
        ensures
            r@ == next_request(old(self)@, data@),
            final(self)@ == numbered(old(self)@),
    {
        self.expected = if self.expected == 255 {
            0
        } else {
            self.expected + 1
        };
        write_packet(1, self.expected, Some(13), data)
    }

    /// Every fragment that is still to be sent fits into a packet.
    pub open spec fn bounded(&self) -> bool {
        forall|i: int| 0 <= i < self@.outbound.len() ==> (#[trigger] self@.outbound[i]).len() <= 65541
    }

    /// Opens a conversation with the peer's first response; the reply asks it to start TLS.
    pub fn open(
        context: &str,
        profile_fingerprint: &str,
        now: u64,
        id: u8,
        fragment_size: usize,
    ) -> (r: (Conversation, Vec<u8>))
        ensures
            ({
                let c = ConversationModel {
                    context: context@,
                    profile_fingerprint: profile_fingerprint@,
                    expires_at: extended(now, 120),
                    expected: id,
                    rounds: 0,
                    received: Seq::empty(),
                    total: None,
                    outbound: Seq::empty(),
                    identity: None,
                    await_success: false,
                    fragment_size,
                };
                r.0@ == numbered(c) && r.1@ == next_request(c, seq![0x20u8])
            }),
            r.0.bounded(),
    {
        let mut c = Conversation {
            context: context.to_owned(),
            profile_fingerprint: profile_fingerprint.to_owned(),
            expires_at: now.saturating_add(120),
            expected: id,
            rounds: 0,
            received: Vec::new(),
            total: None,
            outbound: Vec::new(),
            identity: None,
            await_success: false,
            fragment_size,
        };
        assert(byte_lists(c.outbound@) =~= Seq::<Seq<u8>>::empty());
        assert(c.received@ =~= Seq::<u8>::empty());
        let start = one_byte(0x20);
        let reply = c.request(&start);
        (c, reply)
    }

    fn take_fragment(&mut self, flags: u8, input: &Vec<u8>) -> (r: Result<Received, Error>)
        requires
            input.len() >= 6,
            old(self).bounded(),
        ensures
            match taken_fragment(old(self)@, flags, input@.skip(6)) {
                Ok(p) => final(self)@ == p.0 && r is Ok && r->Ok_0@ == p.1,
                Err(f) => fails(r, f),
            },
            r is Ok ==> final(self).bounded(),
    {
        let ghost data = input@.skip(6);
        let long = flags & 0x80 != 0;
        let mut total = self.total;
        let mut from: usize = 6;
        if long {
            if input.len() < 10 || self.total.is_some() || self.received.len() > 0 {
                return Err(Error::bad("Invalid EAP-TLS fragment length field"));
            }
            let n: u64 = (input[6] as u64) * 16777216 + (input[7] as u64) * 65536 + (input[8] as u64)
                * 256 + (input[9] as u64);
            if n == 0 || n > 65536 {
                return Err(Error::bad("EAP-TLS flight exceeds 64 KiB"));
            }
            total = Some(n as usize);
            from = 10;
        }
        let part = bytes_between(input, from, input.len());
        proof {
            if long {
                assert(part@ =~= data.skip(4));
            } else {
                assert(part@ =~= data);
            }
        }
        if part.len() == 0 || part.len() > 65536 || self.received.len() > 65536 - part.len() {
            return Err(Error::bad("Empty or oversized EAP-TLS input"));
        }
        let mut all = copy_bytes(&self.received);
        append_bytes(&mut all, &part);
        if flags & 0x40 != 0 {
            let fits = match total {
                Some(n) => all.len() < n,
                None => false,
            };
            if !fits {
                return Err(Error::bad("Invalid fragmented EAP-TLS input"));
            }
            self.received = all;
            self.total = total;
            let ack = one_byte(0);
            let reply = self.request(&ack);
            return Ok(Received::Reply(reply));
        }
        let complete = match total {
            Some(n) => all.len() == n,
            None => true,
        };
        if !complete {
            return Err(Error::bad("Incomplete EAP-TLS flight"));
        }
        self.received = Vec::new();
        self.total = None;
        assert(self.received@ =~= Seq::<u8>::empty());
        Ok(Received::Flight(all))
    }

    /// Takes the peer's next response. After a failure the conversation is over.
    pub fn receive(&mut self, input: &Vec<u8>) -> (r: Result<Received, Error>)
        requires
            input.len() >= 5,
            old(self).bounded(),
        ensures
            match taken(old(self)@, input@) {
                Ok(p) => final(self)@ == p.0 && r is Ok && r->Ok_0@ == p.1,
                Err(f) => fails(r, f),
            },
            r is Ok ==> final(self).bounded(),
    {
        self.rounds = self.rounds.saturating_add(1);
        if self.rounds > 256 || input[1] != self.expected || input[4] != 13 || input.len() < 6 {
            return Err(Error::bad("Unexpected EAP-TLS response or sequence"));
        }
        let flags: u8 = input[5];
        if flags & 0x3f != 0 {
            return Err(Error::bad("Unsupported EAP-TLS flags"));
        }
        assert(byte_lists(self.outbound@).len() == self.outbound.len());
        if self.outbound.len() > 0 {
            if flags != 0 || input.len() > 6 {
                return Err(Error::bad("EAP-TLS fragment acknowledgement must be empty"));
            }
            let ghost before = byte_lists(self.outbound@);
            assert(before[0] == self.outbound[0]@);
            assert(self@.outbound[0].len() <= 65541);
            let next = self.outbound.remove(0);
            assert(byte_lists(self.outbound@) =~= before.drop_first());
            assert forall|i: int| 0 <= i < self@.outbound.len() implies (
            #[trigger] self@.outbound[i]).len() <= 65541 by {
                assert(self@.outbound[i] == before[i + 1]);
            }
            let reply = self.request(&next);
            return Ok(Received::Reply(reply));
        }
        if self.await_success {
            if flags != 0 || input.len() > 6 {
                return Err(Error::bad("EAP-TLS success acknowledgement must be empty"));
            }
            return match &self.identity {
                Some(i) => Ok(Received::Success(i.dup())),
                None => Err(Error::Forbidden),
            };
        }
        self.take_fragment(flags, input)
    }

    /// Goes on once TLS took a flight. `finished` is the identity whose handshake ended with it,
    /// `out` what TLS sends.
    pub fn respond(&mut self, finished: Option<Identity>, out: &Vec<u8>) -> (r: Result<
        Vec<u8>,
        Error,
    >)
        requires
            old(self)@.fragment_size > 0,
            old(self).bounded(),
        ensures
            match responded(old(self)@, opt_view(finished), out@) {
                Ok(p) => final(self)@ == p.0 && r is Ok && r->Ok_0@ == p.1,
                Err(f) => fails(r, f),
            },
            r is Ok ==> final(self).bounded(),
    {
        if finished.is_some() {
            self.identity = finished;
            self.await_success = true;
        }
        if out.len() > 65536 {
            return Err(Error::bad("EAP-TLS output flight exceeds 64 KiB"));
        }
        if out.len() == 0 {
            let ack = one_byte(0);
            return Ok(self.request(&ack));
        }
        let ghost old_out = byte_lists(self.outbound@);
        let ghost size = self.fragment_size as nat;
        make_fragments(out, self.fragment_size, &mut self.outbound);
        let ghost f = byte_lists(self.outbound@);
        proof {
            pieces_make_the_whole(out@, size);
            lemma_fragments_bounded(out@, size);
            assert(fragments(out@, size).len() > 0);
            assert(f.len() == self.outbound.len());
            assert(f[0] == self.outbound[0]@);
            if old_out.len() > 0 {
                assert(f[0] == old_out[0]);
            } else {
                assert(f[0] == fragments(out@, size)[0]);
            }
        }
        let next = self.outbound.remove(0);
        assert(byte_lists(self.outbound@) =~= f.drop_first());
        assert forall|i: int| 0 <= i < self@.outbound.len() implies (
        #[trigger] self@.outbound[i]).len() <= 65541 by {
            assert(self@.outbound[i] == f[i + 1]);
            if i + 1 < old_out.len() {
                assert(f[i + 1] == old_out[i + 1]);
            } else {
                assert(f[i + 1] == fragments(out@, size)[i + 1 - old_out.len()]);
            }
        }
        Ok(self.request(&next))
    }
}

proof fn lemma_fragments_bounded(b: Seq<u8>, size: nat)
    requires
        size > 0,
        0 < b.len() <= 65536,
    ensures
        fragments(b, size).len() > 0,
        forall|i: int| 0 <= i < fragments(b, size).len() ==> (#[trigger] fragments(b, size)[i]).len() <= 65541,
{
    pieces_make_the_whole(b, size);
    let parts = pieces(b, size);
    lemma_pieces_small(b, size);
    assert forall|i: int| 0 <= i < fragments(b, size).len() implies (#[trigger] fragments(b, size)[i]).len()
        <= 65541 by {
        assert(fragments(b, size)[i] == fragment(parts, b.len(), i));
        assert(parts[i].len() <= b.len());
    }
}

proof fn lemma_pieces_small(b: Seq<u8>, size: nat)
    requires
        size > 0,
    ensures
        b.len() > 0 ==> pieces(b, size).len() > 0,
        forall|i: int| 0 <= i < pieces(b, size).len() ==> (#[trigger] pieces(b, size)[i]).len() <= b.len(),
    decreases b.len(),
{
    if b.len() > size {
        lemma_pieces_small(b.skip(size as int), size);
        let rest = pieces(b.skip(size as int), size);
        assert forall|i: int| 0 <= i < pieces(b, size).len() implies (#[trigger] pieces(b, size)[i]).len()
            <= b.len() by {
            if i > 0 {
                assert(pieces(b, size)[i] == rest[i - 1]);
            }
        }
    }
}

/// The number that four bytes write, the highest first.
pub open spec fn number32(b: Seq<u8>) -> nat {
    (b[0] * 16777216 + b[1] * 65536 + b[2] * 256 + b[3]) as nat
}

/// The peer's view of a fragment: the part that it carries.
pub open spec fn carried(f: Seq<u8>) -> Seq<u8> {
    if f[0] & 0x80 != 0 {
        f.skip(5)
    } else {
        f.skip(1)
    }
}

/// The fragments of a flight carry the whole flight in order, and the first of several tells its
/// length.
pub proof fn fragments_carry_the_flight(b: Seq<u8>, size: nat)
    requires
        size > 0,
        0 < b.len() <= 65536,
    ensures
        glued(fragments(b, size).map_values(|f: Seq<u8>| carried(f))) == b,
        fragments(b, size).len() > 1 ==> number32(fragments(b, size)[0].skip(1)) == b.len(),
{
    let parts = pieces(b, size);
    let f = fragments(b, size);
    pieces_make_the_whole(b, size);
    lemma_pieces_small(b, size);
    assert forall|i: int| 0 <= i < f.len() implies carried(#[trigger] f[i]) == parts[i] by {
        assert(f[i] == fragment(parts, b.len(), i));
        assert(0x40u8 & 0x80 == 0) by (bit_vector);
        assert(0u8 & 0x80 == 0) by (bit_vector);
        assert((0x80u8 | 0x40u8) & 0x80 != 0) by (bit_vector);
        assert((0x80u8 | 0u8) & 0x80 != 0) by (bit_vector);
        assert(carried(f[i]) =~= parts[i]);
    }
    assert(f.map_values(|f: Seq<u8>| carried(f)) =~= parts);
    if f.len() > 1 {
        assert(f[0] == fragment(parts, b.len(), 0));
        let t = f[0].skip(1);
        assert(t[0] == bytes32(b.len())[0]);
        assert(t[1] == bytes32(b.len())[1]);
        assert(t[2] == bytes32(b.len())[2]);
        assert(t[3] == bytes32(b.len())[3]);
    }
}

/// The key of one direction, hidden under the shared secret.
pub open spec fn hidden_key(
    key: Seq<u8>,
    secret: Seq<u8>,
    authenticator: Seq<u8>,
    salt: u16,
    kind: u8,
) -> Seq<u8> {
    let cipher = hidden(padded_key(key), secret, authenticator + bytes16(salt as nat));
    bytes32(311) + seq![kind, ((cipher.len() + 4) % 256) as u8] + bytes16(salt as nat) + cipher
}

/// A key behind its length, filled up to whole blocks.
pub open spec fn padded_key(key: Seq<u8>) -> Seq<u8> {
    let n = (key.len() + 1 + 15) / 16 * 16;
    seq![key.len() as u8] + key + Seq::new((n - key.len() - 1) as nat, |i: int| 0u8)
}

fn encipher(plain: &Vec<u8>, secret: &Vec<u8>, start: &Vec<u8>) -> (r: Vec<u8>)
    requires
        plain.len() % 16 == 0,
        plain.len() <= 512,
    ensures
        r@ == hidden(plain@, secret@, start@),
{
    let mut out: Vec<u8> = Vec::new();
    let mut at: usize = 0;
    let mut previous = copy_bytes(start);
    let ghost want = hidden(plain@, secret@, start@);
    assert(plain@.skip(0) =~= plain@);
    assert(out@ + want =~= want);
    while at < plain.len()
        invariant
            at <= plain.len() <= 512,
            at % 16 == 0,
            plain.len() % 16 == 0,
            out.len() == at,
            want == out@ + hidden(plain@.skip(at as int), secret@, previous@),
        decreases plain.len() - at,
    {
        let mut seed = copy_bytes(secret);
        append_bytes(&mut seed, &previous);
        let key = md5(seed.as_slice());
        let ghost was = out@;
        let ghost rest = plain@.skip(at as int);
        assert(rest.take(16) =~= plain@.subrange(at as int, at + 16));
        assert(rest.skip(16) =~= plain@.skip(at + 16));
        mask(plain, at, &key, &mut out);
        previous = bytes_between(&out, at, at + 16);
        let ghost block = masked(rest.take(16), key@);
        proof {
            assert(previous@ =~= block);
            assert(was + (block + hidden(rest.skip(16), secret@, block)) =~= out@ + hidden(
                rest.skip(16),
                secret@,
                block,
            ));
        }
        at = at + 16;
    }
    assert(out@ + Seq::<u8>::empty() =~= out@);
    out
}

/// Two bytes of a number, the high one first.
pub fn to_bytes16(n: u16) -> (r: Vec<u8>)
    ensures
        r@ == bytes16(n as nat),
{
    let mut out: Vec<u8> = Vec::new();
    out.push(((n / 256) % 256) as u8);
    out.push((n % 256) as u8);
    assert(out@ =~= bytes16(n as nat));
    out
}

/// Hides a session key for the network access server.
pub fn mppe(key: &Vec<u8>, secret: &Vec<u8>, authenticator: &Vec<u8>, salt: u16, kind: u8) -> (r: Vec<
    u8,
>)
    requires
        key.len() <= 255,
    ensures
        r@ == hidden_key(key@, secret@, authenticator@, salt, kind),
{
    let mut plain: Vec<u8> = Vec::new();
    plain.push(key.len() as u8);
    assert(plain@ =~= seq![key@.len() as u8]);
    append_bytes(&mut plain, key);
    let size: usize = (key.len() + 16) / 16 * 16;
    append_bytes(&mut plain, &zeros(size - key.len() - 1));
    assert(plain@ =~= padded_key(key@));
    let mut start = copy_bytes(authenticator);
    append_bytes(&mut start, &to_bytes16(salt));
    let cipher = encipher(&plain, secret, &start);
    proof {
        hidden_text_is_found_again(plain@, secret@, start@);
    }
    let mut out = to_bytes32(311);
    let ghost head = out@;
    out.push(kind);
    out.push(((cipher.len() + 4) % 256) as u8);
    assert(out@ =~= head + seq![kind, ((cipher@.len() + 4) % 256) as u8]);
    append_bytes(&mut out, &to_bytes16(salt));
    append_bytes(&mut out, &cipher);
    out
}

/// The server that knows the secret finds the key in what was sent.
pub proof fn session_keys_are_recovered(
    key: Seq<u8>,
    secret: Seq<u8>,
    authenticator: Seq<u8>,
    salt: u16,
    kind: u8,
)
    requires
        key.len() <= 255,
    ensures
        ({
            let v = hidden_key(key, secret, authenticator, salt, kind);
            unmasked(v.skip(8), secret, authenticator + bytes16(salt as nat)) == padded_key(key)
                && v.take(4) == bytes32(311)
        }),
        padded_key(key)[0] == key.len(),
        padded_key(key).subrange(1, (1 + key.len()) as int) == key,
{
    let plain = padded_key(key);
    let start = authenticator + bytes16(salt as nat);
    hidden_text_is_found_again(plain, secret, start);
    let v = hidden_key(key, secret, authenticator, salt, kind);
    assert(v.skip(8) =~= hidden(plain, secret, start));
    assert(v.take(4) =~= bytes32(311));
    assert(plain.subrange(1, (1 + key.len()) as int) =~= key);
}

/// The attributes of an accepted conversation: its success, and the keys of both directions.
pub open spec fn success_attributes(
    id: u8,
    material: Seq<u8>,
    secret: Seq<u8>,
    authenticator: Seq<u8>,
    random: u16,
) -> Seq<(u8, Seq<u8>)> {
    let salt = random | 0x8000;
    eap_attributes(eap_packet(3, id, None, Seq::empty()), None).push(
        (26u8, hidden_key(material.take(32), secret, authenticator, salt, 17)),
    ).push((26u8, hidden_key(material.subrange(32, 64), secret, authenticator, salt ^ 1, 16)))
}

pub fn succeed(
    id: u8,
    material: &Vec<u8>,
    secret: &Vec<u8>,
    authenticator: &Vec<u8>,
    random: u16,
) -> (r: Vec<(u8, Vec<u8>)>)
    requires
        material.len() >= 64,
    ensures
        wire_pairs(r@) == success_attributes(id, material@, secret@, authenticator@, random),
{
    let none: Vec<u8> = Vec::new();
    assert(none@ =~= Seq::<u8>::empty());
    let p = write_packet(3, id, None, &none);
    let mut out = attributes(&p, &None);
    let salt: u16 = random | 0x8000;
    let receive = bytes_between(material, 0, 32);
    let send = bytes_between(material, 32, 64);
    assert(receive@ =~= material@.take(32));
    let a = mppe(&receive, secret, authenticator, salt, 17);
    push_attribute(&mut out, 26, a);
    let b = mppe(&send, secret, authenticator, salt ^ 1, 16);
    push_attribute(&mut out, 26, b);
    out
}

/// The digest that ties a conversation to its listener, server, client and secret.
pub open spec fn context_of(
    listener: Seq<char>,
    nas_id: Seq<char>,
    peer: Seq<char>,
    client_fingerprint: Seq<char>,
    secret: Seq<u8>,
) -> Seq<char> {
    digest_of(
        listener + "\0"@ + nas_id + "\0"@ + peer + "\0"@ + client_fingerprint + "\0"@
            + base64url_of(secret),
    )
}

pub fn conversation_context(
    listener: &str,
    nas_id: &str,
    peer: &str,
    client_fingerprint: &str,
    secret: &Vec<u8>,
) -> (r: String)
    ensures
        r@ == context_of(listener@, nas_id@, peer@, client_fingerprint@, secret@),
{
    let mut t = concat3(listener, "\0", nas_id);
    t.append("\0");
    t.append(peer);
    t.append("\0");
    t.append(client_fingerprint);
    t.append("\0");
    let s = base64url(secret.as_slice());
    t.append(s.as_str());
    digest(t.as_str())
}

/// Where a request that carries EAP goes.
pub enum Route {
    /// The peer is asked for its identity.
    Greet,
    Reject,
    /// A new conversation; the number of the peer's response.
    Open(u8),
    /// The conversation of this state.
    Resume(String),
}

/// What a [`Route`] holds.
pub enum RouteModel {
    Greet,
    Reject,
    Open(u8),
    Resume(Seq<char>),
}

impl View for Route {
    type V = RouteModel;

    open spec fn view(&self) -> RouteModel {
        match *self {
            Route::Greet => RouteModel::Greet,
            Route::Reject => RouteModel::Reject,
            Route::Open(id) => RouteModel::Open(id),
            Route::Resume(s) => RouteModel::Resume(s@),
        }
    }
}

pub open spec fn eap_code() -> spec_fn((u8, Seq<u8>)) -> bool {
    |a: (u8, Seq<u8>)| a.0 == 79
}

/// A first request: one empty EAP attribute, no state and no password.
pub open spec fn greeting(attrs: Seq<(u8, Seq<u8>)>) -> bool {
    first_value(attrs, 24) is None && first_value(attrs, 2) is None && first_value(attrs, 3) is None
        && attrs.filter(eap_code()).len() == 1 && first_value(attrs, 79) == Some(Seq::<u8>::empty())
}

/// Where a request goes. `open` is how many conversations there are, `profile` whether the listener
/// has an EAP-TLS profile.
pub open spec fn routed(attrs: Seq<(u8, Seq<u8>)>, open: nat, profile: bool) -> Result<
    RouteModel,
    Failure,
> {
    if greeting(attrs) {
        Ok(RouteModel::Greet)
    } else {
        match eap_message(attrs) {
            Err(_) => Ok(RouteModel::Reject),
            Ok(input) => if first_value(attrs, 2) is Some || first_value(attrs, 3) is Some {
                Ok(RouteModel::Reject)
            } else if !profile {
                Err(Failure::Bad("RADIUS listener has no EAP-TLS trust profile"@))
            } else {
                match first_value(attrs, 24) {
                    None => if input[4] != 1 || input.len() > 258 || input.len() == 5 || open >= 512 {
                        Ok(RouteModel::Reject)
                    } else if !valid_utf8(input.skip(5)) {
                        Err(Failure::Bad("EAP identity must be UTF-8"@))
                    } else if some_control(decode_utf8(input.skip(5))) {
                        Ok(RouteModel::Reject)
                    } else {
                        Ok(RouteModel::Open(input[1]))
                    },
                    Some(state) => if valid_utf8(state) {
                        Ok(RouteModel::Resume(decode_utf8(state)))
                    } else {
                        Err(Failure::Bad("Invalid EAP state"@))
                    },
                }
            },
        }
    }
}

#[verifier::loop_isolation(false)]
fn count_eap(attrs: &Vec<(u8, Vec<u8>)>) -> (r: usize)
    ensures
        r == wire_pairs(attrs@).filter(eap_code()).len(),
{
    let ghost all = wire_pairs(attrs@);
    let ghost f = eap_code();
    let mut n: usize = 0;
    let mut i: usize = 0;
    assert(all.take(0).filter(f) =~= Seq::<(u8, Seq<u8>)>::empty());
    while i < attrs.len()
        invariant
            i <= attrs.len(),
            n <= i,
            n == all.take(i as int).filter(f).len(),
        decreases attrs.len() - i,
    {
        proof {
            assert(all[i as int] == (attrs[i as int].0, attrs[i as int].1@));
            assert(all.take(i + 1) =~= all.take(i as int).push(all[i as int]));
            all.take(i as int).lemma_filter_push(all[i as int], f);
        }
        if attrs[i].0 == 79 {
            n = n + 1;
        }
        i = i + 1;
    }
    assert(all.take(i as int) =~= all);
    n
}

/// Decides where a request that carries EAP goes.
pub fn route(request: &Packet, open: usize, profile: bool) -> (r: Result<Route, Error>)
    ensures
        agrees_with(r, routed(request@.attrs, open as nat, profile)),
{
    let empty = match request.attr(79) {
        Some(v) => {
            proof {
                if v@.len() == 0 {
                    assert(v@ =~= Seq::<u8>::empty());
                }
            }
            v.len() == 0
        },
        None => false,
    };
    if request.attr(24).is_none() && request.attr(2).is_none() && request.attr(3).is_none()
        && count_eap(&request.attrs) == 1 && empty {
        return Ok(Route::Greet);
    }
    let input = match message(request) {
        Err(_) => return Ok(Route::Reject),
        Ok(m) => m,
    };
    if request.attr(2).is_some() || request.attr(3).is_some() {
        return Ok(Route::Reject);
    }
    if !profile {
        return Err(Error::bad("RADIUS listener has no EAP-TLS trust profile"));
    }
    match request.attr(24) {
        None => {
            if input[4] != 1 || input.len() > 258 || input.len() == 5 || open >= 512 {
                return Ok(Route::Reject);
            }
            let tail = bytes_between(&input, 5, input.len());
            assert(tail@ =~= input@.skip(5));
            let name = match string_from_bytes(tail) {
                None => return Err(Error::bad("EAP identity must be UTF-8")),
                Some(s) => s,
            };
            proof {
                encode_utf8_decode_utf8(name@);
            }
            if has_control(name.as_str()) {
                return Ok(Route::Reject);
            }
            Ok(Route::Open(input[1]))
        },
        Some(state) => match string_from_bytes(copy_bytes(state)) {
            None => Err(Error::bad("Invalid EAP state")),
            Some(s) => {
                proof {
                    encode_utf8_decode_utf8(s@);
                }
                Ok(Route::Resume(s))
            },
        },
    }
}

impl Conversation {
    /// Whether a request of this context belongs to the conversation. One that does not leaves it as
    /// it is.
    pub fn belongs(&self, context: &str, now: u64) -> (r: bool)
        ensures
            r == (self@.expires_at > now && self@.context == context@),
    {
        self.expires_at > now && same(self.context.as_str(), context)
    }

    /// Whether the conversation goes on under the listener's present trust material. One that does
    /// not is over.
    pub fn trusted(&self, profile_fingerprint: &str) -> (r: bool)
        ensures
            r == (self@.profile_fingerprint == profile_fingerprint@),
    {
        same(self.profile_fingerprint.as_str(), profile_fingerprint)
    }
}

/// A packet says what it is, which exchange it belongs to and how long it is, before its method and its
/// data.
pub proof fn packets_say_their_length(code: u8, id: u8, method: u8, data: Seq<u8>)
    requires
        data.len() <= 65000,
    ensures
        ({
            let p = eap_packet(code, id, Some(method), data);
            &&& p.len() == 5 + data.len()
            &&& p[0] == code && p[1] == id && p[4] == method
            &&& 256 * p[2] + p[3] == p.len()
            &&& p.skip(5) == data
        }),
        ({
            let p = eap_packet(code, id, None, Seq::empty());
            p.len() == 4 && p[0] == code && p[1] == id && p[2] == 0 && p[3] == 4
        }),
{
    let p = eap_packet(code, id, Some(method), data);
    assert(p.skip(5) =~= data);
    let n = (5 + data.len()) as nat;
    assert(n / 256 < 256);
    assert(256 * (n / 256) + n % 256 == n);
}

/// A conversation that failed ends with a failure of the exchange that was answered.
pub proof fn failures_answer_the_exchange(attrs: Seq<(u8, Seq<u8>)>, m: Seq<u8>)
    requires
        eap_message(attrs) == Ok::<Seq<u8>, Failure>(m),
    ensures
        failure_attributes(attrs) == seq![(79u8, seq![4u8, m[1], 0u8, 4u8])],
{
    let p = eap_packet(4, m[1], None, Seq::empty());
    assert(p =~= seq![4u8, m[1], 0u8, 4u8]);
    assert(pieces(p, 253) =~= seq![p]);
    assert(eap_attributes(p, None) =~= seq![(79u8, p)]);
}

/// A conversation that succeeded ends with a success of the exchange and the two keys of the session, each
/// hidden with the secret of the peer.
pub proof fn successes_carry_the_session_keys(
    id: u8,
    material: Seq<u8>,
    secret: Seq<u8>,
    authenticator: Seq<u8>,
    random: u16,
)
    requires
        material.len() == 64,
    ensures
        ({
            let v = success_attributes(id, material, secret, authenticator, random);
            let salt = random | 0x8000;
            &&& v.len() == 3
            &&& v[0] == (79u8, seq![3u8, id, 0u8, 4u8])
            &&& v[1].0 == 26 && v[2].0 == 26
            &&& v[1].1[4] == 17 && v[2].1[4] == 16
            &&& v[1].1 == hidden_key(material.take(32), secret, authenticator, salt, 17)
            &&& v[2].1 == hidden_key(material.skip(32), secret, authenticator, salt ^ 1, 16)
        }),
{
    let p = eap_packet(3, id, None, Seq::empty());
    assert(p =~= seq![3u8, id, 0u8, 4u8]);
    assert(pieces(p, 253) =~= seq![p]);
    assert(eap_attributes(p, None) =~= seq![(79u8, p)]);
    assert(material.subrange(32, 64) =~= material.skip(32));
}

/// A conversation takes the answer to what it sent last, and only that; it ends in success for the
/// identity that was proved, once the peer has acknowledged it.
pub proof fn answers_are_taken_in_order(c: ConversationModel, input: Seq<u8>)
    requires
        taken(c, input) is Ok,
        input.len() >= 5,
    ensures
        input[1] == c.expected,
        input[4] == 13,
        (taken(c, input)->Ok_0).1 matches ReceivedModel::Success(i) ==> c.identity == Some(i)
            && c.await_success && c.outbound.len() == 0 && input.len() == 6 && input[5] == 0,
        (taken(c, input)->Ok_0).1 is Flight ==> !c.await_success && c.outbound.len() == 0,
        c.outbound.len() > 0 ==> (taken(c, input)->Ok_0).0.outbound == c.outbound.drop_first(),
{
}

/// An identity is proved once its handshake is finished, and then waits for the peer.
pub proof fn finished_handshakes_wait_for_the_peer(
    c: ConversationModel,
    i: IdentityModel,
    out: Seq<u8>,
)
    requires
        responded(c, Some(i), out) is Ok,
    ensures
        (responded(c, Some(i), out)->Ok_0).0.identity == Some(i),
        (responded(c, Some(i), out)->Ok_0).0.await_success,
        responded(c, None, out) matches Ok(p) ==> p.0.identity == c.identity && p.0.await_success
            == c.await_success,
{
}

/// An exchange begins with a packet that names somebody and carries nothing else, while there is room
/// and the listener has its trust; a packet with a state goes on where that state left off.
pub proof fn exchanges_are_opened_by_a_name(attrs: Seq<(u8, Seq<u8>)>, open: nat, profile: bool, id: u8)
    ensures
        routed(attrs, open, profile) == Ok::<RouteModel, Failure>(RouteModel::Open(id)) ==> {
            let input = eap_message(attrs)->Ok_0;
            &&& profile
            &&& open < 512
            &&& first_value(attrs, 24) is None
            &&& first_value(attrs, 2) is None
            &&& first_value(attrs, 3) is None
            &&& eap_message(attrs) is Ok
            &&& input[1] == id
            &&& input[4] == 1
            &&& 5 < input.len() <= 258
            &&& !some_control(decode_utf8(input.skip(5)))
        },
        eap_message(attrs) is Ok && profile && first_value(attrs, 2) is None && first_value(attrs, 3) is None
            && first_value(attrs, 24) is Some && valid_utf8(first_value(attrs, 24)->0) ==> routed(
            attrs,
            open,
            profile,
        ) == Ok::<RouteModel, Failure>(RouteModel::Resume(decode_utf8(first_value(attrs, 24)->0))),
        first_value(attrs, 24) is None && !greeting(attrs) && open >= 512 ==> !(routed(
            attrs,
            open,
            profile,
        ) matches Ok(RouteModel::Open(_))),
{
}

/// A message from the peer is an answer of the length that it states.
pub proof fn messages_state_their_length(attrs: Seq<(u8, Seq<u8>)>)
    ensures
        eap_message(attrs) matches Ok(b) ==> b == eap_bytes(attrs) && b.len() >= 5 && b[0] == 2
            && b[2] as int * 256 + b[3] as int == b.len() && !interrupted(attrs),
{
}

/// A flight that comes in pieces is put together in their order: each piece is kept behind what came
/// before, the length that the first one told is held to, and the last one gives the whole.
pub proof fn pieces_are_put_together(c: ConversationModel, flags: u8, data: Seq<u8>)
    requires
        flags & 0x80 == 0,
        data.len() > 0,
        c.received.len() + data.len() <= 65536,
    ensures
        flags & 0x40 == 0 ==> {
            &&& taken_fragment(c, flags, data) is Ok <==> (c.total matches Some(n) ==> c.received.len()
                + data.len() == n)
            &&& taken_fragment(c, flags, data) matches Ok((next, r)) ==> r == ReceivedModel::Flight(
                c.received + data,
            ) && next.received.len() == 0 && next.total is None
        },
        flags & 0x40 != 0 ==> {
            &&& taken_fragment(c, flags, data) is Ok <==> c.total is Some && c.received.len() + data.len()
                < c.total->0
            &&& taken_fragment(c, flags, data) matches Ok((next, r)) ==> next.received == c.received + data
                && next.total == c.total && r is Reply
        },
{
}

/// The length of a flight stands in its first piece only, and is at most sixty-four kibibytes.
pub proof fn flights_tell_their_length_once(c: ConversationModel, flags: u8, data: Seq<u8>)
    requires
        flags & 0x80 != 0,
    ensures
        c.total is Some || c.received.len() > 0 || data.len() < 5 ==> taken_fragment(c, flags, data) is Err,
        flags & 0x40 != 0 ==> (taken_fragment(c, flags, data) matches Ok((next, _)) ==> next.total is Some && 0
            < next.total->0 <= 65536 && next.received == data.skip(4) && next.received.len() < next.total->0),
{
    if data.len() == 4 {
        assert(data.skip(4).len() == 0);
    }
    assert(c.received.len() == 0 ==> c.received + data.skip(4) =~= data.skip(4));
}

/// The first piece of several tells how long the whole is; every piece but the last says that more
/// follows, and a flight in one piece says neither.
pub proof fn first_pieces_tell_the_length(parts: Seq<Seq<u8>>, total: nat, i: int)
    requires
        0 <= i < parts.len(),
    ensures
        parts.len() == 1 ==> fragment(parts, total, i) == seq![0u8] + parts[i],
        parts.len() > 1 && i == 0 ==> fragment(parts, total, i) == seq![0xc0u8] + bytes32(total) + parts[i],
        0 < i < parts.len() - 1 ==> fragment(parts, total, i) == seq![0x40u8] + parts[i],
        parts.len() > 1 && i == parts.len() - 1 ==> fragment(parts, total, i) == seq![0u8] + parts[i],
{
    assert(0x80u8 | 0x40u8 == 0xc0u8) by (bit_vector);
}

/// A first piece that tells the length of the whole is taken: alone if it is all of it, and kept if more
/// is to follow.
pub proof fn first_pieces_are_taken(c: ConversationModel, flags: u8, data: Seq<u8>, n: int)
    requires
        flags & 0x80 != 0,
        c.total is None,
        c.received.len() == 0,
        data.len() > 4,
        n == data[0] as int * 16777216 + data[1] as int * 65536 + data[2] as int * 256 + data[3] as int,
        data.len() - 4 <= n <= 65536,
    ensures
        flags & 0x40 == 0 && n == data.len() - 4 ==> (taken_fragment(c, flags, data) matches Ok((_, r)) && r
            == ReceivedModel::Flight(data.skip(4))),
        flags & 0x40 != 0 && n > data.len() - 4 ==> (taken_fragment(c, flags, data) matches Ok((next, r)) && r is Reply
            && next.received == data.skip(4) && next.total is Some && next.total->0 == n),
        flags & 0x40 == 0 && n > data.len() - 4 ==> taken_fragment(c, flags, data) is Err,
{
    assert(c.received + data.skip(4) =~= data.skip(4));
}

} // verus!
