//! RADIUS packets on the wire.
use crate::error::{Error, Failure, agrees_with, fails};
use crate::outside::{hmac_md5, hmac_md5_of, hmac_md5_verify, md5, md5_of, opt_bytes, string_from_bytes, wire_pairs};
use crate::text::copy_bytes;
use vstd::utf8::{encode_utf8, valid_utf8};
use vstd::prelude::*;
use vstd::string::*;

verus! {

/// An authenticated request.
pub struct Packet {
    pub identifier: u8,
    pub authenticator: Vec<u8>,
    pub attrs: Vec<(u8, Vec<u8>)>,
}

/// What a [`Packet`] holds.
pub struct PacketModel {
    pub identifier: u8,
    pub authenticator: Seq<u8>,
    pub attrs: Seq<(u8, Seq<u8>)>,
}

impl View for Packet {
    type V = PacketModel;

    open spec fn view(&self) -> PacketModel {
        PacketModel {
            identifier: self.identifier,
            authenticator: self.authenticator@,
            attrs: wire_pairs(self.attrs@),
        }
    }
}

/// The number that two bytes write, the high one first.
pub open spec fn number16(hi: u8, lo: u8) -> nat {
    (hi * 256 + lo) as nat
}

/// The two bytes of a number.
pub open spec fn bytes16(n: nat) -> Seq<u8> {
    seq![((n / 256) % 256) as u8, (n % 256) as u8]
}

/// An attribute that a packet may hold once.
pub open spec fn only_once(code: u8) -> bool {
    code == 1 || code == 2 || code == 3 || code == 24 || code == 80
}

/// The attributes from `at` on, and where the value of the Message-Authenticator stands.
pub open spec fn attributes_at(b: Seq<u8>, at: int, seen: Set<u8>) -> Result<
    (Seq<(u8, Seq<u8>)>, Option<int>),
    Failure,
>
    decreases b.len() - at,
{
    if at >= b.len() {
        Ok((Seq::empty(), None))
    } else if at + 2 > b.len() {
        Err(Failure::Bad("Truncated RADIUS attribute"@))
    } else {
        let code = b[at];
        let len = b[at + 1] as int;
        if code == 0 || len < 2 || at + len > b.len() {
            Err(Failure::Bad("Invalid RADIUS attribute length"@))
        } else if only_once(code) && seen.contains(code) {
            Err(Failure::Bad("Duplicate RADIUS credential or authenticator"@))
        } else if code == 80 && len != 18 {
            Err(Failure::Bad("Invalid Message-Authenticator"@))
        } else {
            match attributes_at(
                b,
                at + len,
                if only_once(code) {
                    seen.insert(code)
                } else {
                    seen
                },
            ) {
                Err(f) => Err(f),
                Ok(rest) => Ok(
                    (
                        seq![(code, b.subrange(at + 2, at + len))] + rest.0,
                        if code == 80 {
                            Some(at + 2)
                        } else {
                            rest.1
                        },
                    ),
                ),
            }
        }
    }
}

/// The packet with the Message-Authenticator's value at `at` blanked.
pub open spec fn blanked(b: Seq<u8>, at: int) -> Seq<u8> {
    b.take(at) + Seq::new(16, |i: int| 0u8) + b.skip(at + 16)
}

/// The request that a packet writes, if the secret signed it.
pub open spec fn decoded(b: Seq<u8>, secret: Seq<u8>) -> Result<PacketModel, Failure> {
    if b.len() < 20 || b.len() > 4096 || b[0] != 1 || number16(b[2], b[3]) != b.len() {
        Err(Failure::Bad("Invalid RADIUS packet"@))
    } else {
        match attributes_at(b, 20, Set::empty()) {
            Err(f) => Err(f),
            Ok((attrs, None)) => Err(Failure::Bad("Message-Authenticator is mandatory"@)),
            Ok((attrs, Some(at))) => if b.subrange(at, at + 16) != hmac_md5_of(
                secret,
                blanked(b, at),
            ) {
                Err(Failure::Forbidden)
            } else {
                Ok(PacketModel { identifier: b[1], authenticator: b.subrange(4, 20), attrs })
            },
        }
    }
}

proof fn lemma_authenticator_fits(b: Seq<u8>, at: int, seen: Set<u8>)
    requires
        0 <= at,
        attributes_at(b, at, seen) is Ok,
    ensures
        (attributes_at(b, at, seen)->Ok_0).1 matches Some(p) ==> at + 2 <= p && p + 16 <= b.len(),
    decreases b.len() - at,
{
    if at < b.len() {
        let code = b[at];
        let len = b[at + 1] as int;
        lemma_authenticator_fits(
            b,
            at + len,
            if only_once(code) {
                seen.insert(code)
            } else {
                seen
            },
        );
    }
}

/// The bytes from `from` to `to`.
pub fn bytes_between(b: &Vec<u8>, from: usize, to: usize) -> (r: Vec<u8>)
    requires
        from <= to <= b.len(),
    ensures
        r@ == b@.subrange(from as int, to as int),
{
    let mut out: Vec<u8> = Vec::new();
    let mut i: usize = from;
    while i < to
        invariant
            from <= i <= to <= b.len(),
            out@ == b@.subrange(from as int, i as int),
        decreases to - i,
    {
        out.push(b[i]);
        assert(b@.subrange(from as int, i + 1) =~= b@.subrange(from as int, i as int).push(
            b@[i as int],
        ));
        i = i + 1;
    }
    out
}

pub fn append_bytes(out: &mut Vec<u8>, more: &Vec<u8>)
    ensures
        final(out)@ == old(out)@ + more@,
{
    let ghost was = out@;
    let mut i: usize = 0;
    assert(was + more@.take(0) =~= was);
    while i < more.len()
        invariant
            i <= more.len(),
            out@ == was + more@.take(i as int),
        decreases more.len() - i,
    {
        out.push(more[i]);
        assert(was + more@.take(i + 1) =~= (was + more@.take(i as int)).push(more@[i as int]));
        i = i + 1;
    }
    assert(more@.take(more.len() as int) =~= more@);
}

/// Adds an attribute.
pub fn push_attribute(out: &mut Vec<(u8, Vec<u8>)>, code: u8, value: Vec<u8>)
    ensures
        wire_pairs(final(out)@) == wire_pairs(old(out)@).push((code, value@)),
{
    let ghost was = wire_pairs(out@);
    let ghost vm = value@;
    out.push((code, value));
    assert(wire_pairs(out@) =~= was.push((code, vm)));
}

pub fn copy_pairs(v: &Vec<(u8, Vec<u8>)>) -> (r: Vec<(u8, Vec<u8>)>)
    ensures
        wire_pairs(r@) == wire_pairs(v@),
{
    let mut out: Vec<(u8, Vec<u8>)> = Vec::new();
    let mut i: usize = 0;
    assert(wire_pairs(out@) =~= wire_pairs(v@).take(0));
    while i < v.len()
        invariant
            i <= v.len(),
            wire_pairs(out@) == wire_pairs(v@).take(i as int),
        decreases v.len() - i,
    {
        let x = copy_bytes(&v[i].1);
        push_attribute(&mut out, v[i].0, x);
        assert(wire_pairs(v@).take(i + 1) =~= wire_pairs(v@).take(i as int).push(
            wire_pairs(v@)[i as int],
        ));
        i = i + 1;
    }
    assert(wire_pairs(v@).take(v.len() as int) =~= wire_pairs(v@));
    out
}

impl Packet {
    pub fn dup(&self) -> (r: Packet)
        ensures
            r@ == self@,
    {
        Packet {
            identifier: self.identifier,
            authenticator: copy_bytes(&self.authenticator),
            attrs: copy_pairs(&self.attrs),
        }
    }
}

/// The attributes of a packet that were read, and those that are still to be read.
spec fn continued(
    done: Seq<(u8, Seq<u8>)>,
    ma: Option<int>,
    rest: Result<(Seq<(u8, Seq<u8>)>, Option<int>), Failure>,
) -> Result<(Seq<(u8, Seq<u8>)>, Option<int>), Failure> {
    match rest {
        Err(f) => Err(f),
        Ok(p) => Ok(
            (
                done + p.0,
                if ma is Some {
                    ma
                } else {
                    p.1
                },
            ),
        ),
    }
}

/// The codes of these flags.
spec fn seen_codes(name: bool, password: bool, chap: bool, state: bool, ma: bool) -> Set<u8> {
    Set::new(
        |c: u8|
            (c == 1 && name) || (c == 2 && password) || (c == 3 && chap) || (c == 24 && state) || (c
                == 80 && ma),
    )
}

#[verifier::loop_isolation(false)]
#[verifier::rlimit(40)]
fn read_attributes(b: &Vec<u8>) -> (r: Result<(Vec<(u8, Vec<u8>)>, Option<usize>), Error>)
    requires
        20 <= b.len() <= 4096,
    ensures
        match attributes_at(b@, 20, Set::empty()) {
            Err(f) => fails(r, f),
            Ok(p) => r is Ok && wire_pairs((r->Ok_0).0@) == p.0 && match (r->Ok_0).1 {
                Some(at) => p.1 == Some(at as int) && at + 16 <= b.len(),
                None => p.1 is None,
            },
        },
{
    let mut attrs: Vec<(u8, Vec<u8>)> = Vec::new();
    let mut at: usize = 20;
    let mut ma: Option<usize> = None;
    let mut name = false;
    let mut password = false;
    let mut chap = false;
    let mut state = false;
    let ghost want = attributes_at(b@, 20, Set::empty());
    let ghost mut seen = seen_codes(false, false, false, false, false);
    proof {
        assert(seen =~= Set::<u8>::empty());
        assert(wire_pairs(attrs@) =~= Seq::<(u8, Seq<u8>)>::empty());
        if want is Ok {
            assert(wire_pairs(attrs@) + (want->Ok_0).0 =~= (want->Ok_0).0);
        }
    }
    while at < b.len()
        invariant
            20 <= at <= b.len(),
            seen == seen_codes(name, password, chap, state, ma is Some),
            want == continued(
                wire_pairs(attrs@),
                match ma {
                    Some(p) => Some(p as int),
                    None => None,
                },
                attributes_at(b@, at as int, seen),
            ),
            ma matches Some(p) ==> p + 16 <= b.len(),
        decreases b.len() - at,
    {
        if at + 2 > b.len() {
            return Err(Error::bad("Truncated RADIUS attribute"));
        }
        let code: u8 = b[at];
        let len: usize = b[at + 1] as usize;
        if code == 0 || len < 2 || at + len > b.len() {
            return Err(Error::bad("Invalid RADIUS attribute length"));
        }
        if (code == 1 && name) || (code == 2 && password) || (code == 3 && chap) || (code == 24
            && state) || (code == 80 && ma.is_some()) {
            return Err(Error::bad("Duplicate RADIUS credential or authenticator"));
        }
        if code == 80 && len != 18 {
            return Err(Error::bad("Invalid Message-Authenticator"));
        }
        let ghost was = wire_pairs(attrs@);
        let ghost ma0 = match ma {
            Some(p) => Some(p as int),
            None => None,
        };
        let ghost seen0 = seen;
        if code == 80 {
            ma = Some(at + 2);
        }
        if code == 1 {
            name = true;
        }
        if code == 2 {
            password = true;
        }
        if code == 3 {
            chap = true;
        }
        if code == 24 {
            state = true;
        }
        let value = bytes_between(b, at + 2, at + len);
        let ghost pair = (code, value@);
        push_attribute(&mut attrs, code, value);
        proof {
            let next = if only_once(code) {
                seen0.insert(code)
            } else {
                seen0
            };
            seen = seen_codes(name, password, chap, state, ma is Some);
            assert(seen =~= next);
            let rest = attributes_at(b@, at + len, next);
            if rest is Ok {
                assert(was + (seq![pair] + (rest->Ok_0).0) =~= was.push(pair) + (rest->Ok_0).0);
            }
        }
        at = at + len;
    }
    proof {
        assert(wire_pairs(attrs@) + Seq::<(u8, Seq<u8>)>::empty() =~= wire_pairs(attrs@));
    }
    Ok((attrs, ma))
}

/// `n` zero bytes.
pub fn zeros(n: usize) -> (r: Vec<u8>)
    ensures
        r@ == Seq::new(n as nat, |i: int| 0u8),
{
    let mut out: Vec<u8> = Vec::new();
    let mut i: usize = 0;
    while i < n
        invariant
            i <= n,
            out@ =~= Seq::new(i as nat, |i: int| 0u8),
        decreases n - i,
    {
        out.push(0);
        i = i + 1;
    }
    out
}

/// Reads a request and checks that the secret signed it.
pub fn decode(b: &Vec<u8>, secret: &Vec<u8>) -> (r: Result<Packet, Error>)
    ensures
        agrees_with(r, decoded(b@, secret@)),
{
    if b.len() < 20 || b.len() > 4096 || b[0] != 1 || (b[2] as usize) * 256 + (b[3] as usize)
        != b.len() {
        return Err(Error::bad("Invalid RADIUS packet"));
    }
    let (attrs, ma) = match read_attributes(b) {
        Err(e) => return Err(e),
        Ok(p) => p,
    };
    let at = match ma {
        None => return Err(Error::bad("Message-Authenticator is mandatory")),
        Some(p) => p,
    };
    proof {
        lemma_authenticator_fits(b@, 20, Set::empty());
    }
    let mut signed = bytes_between(b, 0, at);
    append_bytes(&mut signed, &zeros(16));
    append_bytes(&mut signed, &bytes_between(b, at + 16, b.len()));
    proof {
        assert(b@.subrange(0, at as int) =~= b@.take(at as int));
        assert(b@.subrange(at + 16, b@.len() as int) =~= b@.skip(at + 16));
    }
    let tag = bytes_between(b, at, at + 16);
    if !hmac_md5_verify(secret.as_slice(), signed.as_slice(), tag.as_slice()) {
        return Err(Error::Forbidden);
    }
    Ok(Packet { identifier: b[1], authenticator: bytes_between(b, 4, 20), attrs })
}

/// The first value of an attribute.
pub open spec fn first_value(attrs: Seq<(u8, Seq<u8>)>, code: u8) -> Option<Seq<u8>>
    decreases attrs.len(),
{
    if attrs.len() == 0 {
        None
    } else if attrs[0].0 == code {
        Some(attrs[0].1)
    } else {
        first_value(attrs.drop_first(), code)
    }
}

proof fn lemma_first_value(attrs: Seq<(u8, Seq<u8>)>, code: u8, i: int)
    requires
        0 <= i <= attrs.len(),
        forall|j: int| 0 <= j < i ==> (#[trigger] attrs[j]).0 != code,
        i < attrs.len() ==> attrs[i].0 == code,
    ensures
        first_value(attrs, code) == if i < attrs.len() {
            Some(attrs[i].1)
        } else {
            None
        },
    decreases attrs.len(),
{
    if attrs.len() > 0 && i > 0 {
        let rest = attrs.drop_first();
        assert(attrs[0].0 != code);
        assert forall|j: int| 0 <= j < i - 1 implies (#[trigger] rest[j]).0 != code by {
            assert(rest[j] == attrs[j + 1]);
        }
        if i < attrs.len() {
            assert(rest[i - 1] == attrs[i]);
        }
        lemma_first_value(rest, code, i - 1);
    }
}

/// `a` XOR `b`, byte by byte.
pub open spec fn masked(a: Seq<u8>, b: Seq<u8>) -> Seq<u8> {
    Seq::new(a.len(), |i: int| a[i] ^ b[i])
}

/// The text under an RFC 2865 password cipher: each block is masked by a hash of the secret and
/// the block before it.
pub open spec fn unmasked(cipher: Seq<u8>, secret: Seq<u8>, previous: Seq<u8>) -> Seq<u8>
    decreases cipher.len(),
{
    if cipher.len() < 16 {
        Seq::empty()
    } else {
        masked(cipher.take(16), md5_of(secret + previous)) + unmasked(
            cipher.skip(16),
            secret,
            cipher.take(16),
        )
    }
}

/// The cipher of a text of whole blocks: each block is masked by a hash of the secret and the
/// cipher block before it.
pub open spec fn hidden(plain: Seq<u8>, secret: Seq<u8>, previous: Seq<u8>) -> Seq<u8>
    decreases plain.len(),
{
    if plain.len() < 16 {
        Seq::empty()
    } else {
        let block = masked(plain.take(16), md5_of(secret + previous));
        block + hidden(plain.skip(16), secret, block)
    }
}

/// What was hidden under a secret is found again with it.
pub proof fn hidden_text_is_found_again(plain: Seq<u8>, secret: Seq<u8>, previous: Seq<u8>)
    requires
        plain.len() % 16 == 0,
    ensures
        unmasked(hidden(plain, secret, previous), secret, previous) == plain,
        hidden(plain, secret, previous).len() == plain.len(),
    decreases plain.len(),
{
    if plain.len() >= 16 {
        let key = md5_of(secret + previous);
        let first = plain.take(16);
        let block = masked(first, key);
        let c = hidden(plain, secret, previous);
        hidden_text_is_found_again(plain.skip(16), secret, block);
        assert(c.take(16) =~= block);
        assert(c.skip(16) =~= hidden(plain.skip(16), secret, block));
        masking_twice_gives_back(first, key);
        assert(first + plain.skip(16) =~= plain);
    } else {
        assert(plain =~= Seq::<u8>::empty());
    }
}

/// Where the first zero byte is.
pub open spec fn first_zero(s: Seq<u8>) -> int
    decreases s.len(),
{
    if s.len() == 0 {
        0
    } else if s[0] == 0 {
        0
    } else {
        1 + first_zero(s.drop_first())
    }
}

proof fn lemma_first_zero(s: Seq<u8>, i: int)
    requires
        0 <= i <= s.len(),
        forall|j: int| 0 <= j < i ==> #[trigger] s[j] != 0,
        i < s.len() ==> s[i] == 0,
    ensures
        first_zero(s) == i,
    decreases s.len(),
{
    if s.len() > 0 && i > 0 {
        let rest = s.drop_first();
        assert(s[0] != 0);
        assert forall|j: int| 0 <= j < i - 1 implies #[trigger] rest[j] != 0 by {
            assert(rest[j] == s[j + 1]);
        }
        if i < s.len() {
            assert(rest[i - 1] == s[i]);
        }
        lemma_first_zero(rest, i - 1);
    }
}

/// The bytes of a password without its padding.
pub open spec fn without_padding(plain: Seq<u8>) -> Option<Seq<u8>> {
    let end = first_zero(plain);
    if end == 0 || exists|i: int| end <= i < plain.len() && #[trigger] plain[i] != 0 {
        None
    } else {
        Some(plain.take(end))
    }
}

/// The password bytes of a request, or why there are none.
pub open spec fn password_bytes(p: PacketModel, secret: Seq<u8>) -> Result<Seq<u8>, Failure> {
    match first_value(p.attrs, 2) {
        None => Err(Failure::Bad("PAP User-Password is required"@)),
        Some(c) => if c.len() == 0 || c.len() > 128 || c.len() % 16 != 0 {
            Err(Failure::Bad("Invalid PAP password length"@))
        } else {
            match without_padding(unmasked(c, secret, p.authenticator)) {
                None => Err(Failure::Bad("Invalid PAP password padding"@)),
                Some(b) => if valid_utf8(b) {
                    Ok(b)
                } else {
                    Err(Failure::Bad("PAP passwords must be UTF-8"@))
                },
            }
        },
    }
}

/// Masks the 16 bytes at `from` with `key`, behind `out`.
pub fn mask(a: &Vec<u8>, from: usize, key: &Vec<u8>, out: &mut Vec<u8>)
    requires
        from + 16 <= a.len(),
        key.len() == 16,
    ensures
        final(out)@ == old(out)@ + masked(a@.subrange(from as int, from + 16), key@),
{
    let ghost was = out@;
    let ghost block = a@.subrange(from as int, from + 16);
    let mut i: usize = 0;
    assert(was + masked(block, key@).take(0) =~= was);
    while i < 16
        invariant
            i <= 16,
            from + 16 <= a.len(),
            key.len() == 16,
            block == a@.subrange(from as int, from + 16),
            out@ == was + masked(block, key@).take(i as int),
        decreases 16 - i,
    {
        out.push(a[from + i] ^ key[i]);
        assert(masked(block, key@)[i as int] == a@[from + i] ^ key@[i as int]);
        assert(was + masked(block, key@).take(i + 1) =~= (was + masked(block, key@).take(
            i as int,
        )).push(masked(block, key@)[i as int]));
        i = i + 1;
    }
    assert(masked(block, key@).take(16) =~= masked(block, key@));
}

#[verifier::loop_isolation(false)]
fn unmask(cipher: &Vec<u8>, secret: &Vec<u8>, authenticator: &Vec<u8>) -> (r: Vec<u8>)
    requires
        cipher.len() % 16 == 0,
        cipher.len() <= 128,
    ensures
        r@ == unmasked(cipher@, secret@, authenticator@),
{
    let mut out: Vec<u8> = Vec::new();
    let mut at: usize = 0;
    let mut previous = copy_bytes(authenticator);
    let ghost want = unmasked(cipher@, secret@, authenticator@);
    assert(cipher@.skip(0) =~= cipher@);
    assert(out@ + want =~= want);
    while at < cipher.len()
        invariant
            at <= cipher.len(),
            at % 16 == 0,
            want == out@ + unmasked(cipher@.skip(at as int), secret@, previous@),
        decreases cipher.len() - at,
    {
        let mut seed = copy_bytes(secret);
        append_bytes(&mut seed, &previous);
        let key = md5(seed.as_slice());
        let ghost was = out@;
        let ghost rest = cipher@.skip(at as int);
        assert(rest.take(16) =~= cipher@.subrange(at as int, at + 16));
        assert(rest.skip(16) =~= cipher@.skip(at + 16));
        mask(cipher, at, &key, &mut out);
        previous = bytes_between(cipher, at, at + 16);
        assert(was + (masked(rest.take(16), key@) + unmasked(rest.skip(16), secret@, rest.take(16)))
            =~= out@ + unmasked(rest.skip(16), secret@, rest.take(16)));
        at = at + 16;
    }
    assert(out@ + Seq::<u8>::empty() =~= out@);
    out
}

#[verifier::loop_isolation(false)]
fn strip_padding(plain: &Vec<u8>) -> (r: Option<Vec<u8>>)
    ensures
        opt_bytes(r) == without_padding(plain@),
{
    let mut end: usize = 0;
    while end < plain.len() && plain[end] != 0
        invariant
            end <= plain.len(),
            forall|j: int| 0 <= j < end ==> #[trigger] plain@[j] != 0,
        decreases plain.len() - end,
    {
        end = end + 1;
    }
    proof {
        lemma_first_zero(plain@, end as int);
    }
    if end == 0 {
        return None;
    }
    let mut i: usize = end;
    while i < plain.len()
        invariant
            end <= i <= plain.len(),
            forall|j: int| end <= j < i ==> #[trigger] plain@[j] == 0,
        decreases plain.len() - i,
    {
        if plain[i] != 0 {
            assert(plain@[i as int] != 0);
            return None;
        }
        i = i + 1;
    }
    assert(plain@.take(end as int) =~= plain@.subrange(0, end as int));
    Some(bytes_between(plain, 0, end))
}

impl Packet {
    /// The first value of an attribute.
    pub fn attr(&self, code: u8) -> (r: Option<&Vec<u8>>)
        ensures
            match r {
                Some(v) => first_value(self@.attrs, code) == Some(v@),
                None => first_value(self@.attrs, code) is None,
            },
    {
        let ghost all = self@.attrs;
        let mut i: usize = 0;
        while i < self.attrs.len()
            invariant
                i <= self.attrs.len(),
                all == wire_pairs(self.attrs@),
                all == self@.attrs,
                forall|j: int| 0 <= j < i ==> (#[trigger] all[j]).0 != code,
            decreases self.attrs.len() - i,
        {
            assert(all[i as int] == (self.attrs[i as int].0, self.attrs[i as int].1@));
            if self.attrs[i].0 == code {
                proof {
                    lemma_first_value(all, code, i as int);
                }
                return Some(&self.attrs[i].1);
            }
            i = i + 1;
        }
        proof {
            lemma_first_value(all, code, i as int);
        }
        None
    }

    /// The password of a PAP request.
    pub fn password(&self, secret: &Vec<u8>) -> (r: Result<String, Error>)
        ensures
            match password_bytes(self@, secret@) {
                Ok(b) => r is Ok && encode_utf8(r->Ok_0@) == b,
                Err(f) => fails(r, f),
            },
    {
        let cipher = match self.attr(2) {
            None => return Err(Error::bad("PAP User-Password is required")),
            Some(c) => c,
        };
        if cipher.len() == 0 || cipher.len() > 128 || cipher.len() % 16 != 0 {
            return Err(Error::bad("Invalid PAP password length"));
        }
        let plain = unmask(cipher, secret, &self.authenticator);
        let bytes = match strip_padding(&plain) {
            None => return Err(Error::bad("Invalid PAP password padding")),
            Some(b) => b,
        };
        match string_from_bytes(bytes) {
            None => Err(Error::bad("PAP passwords must be UTF-8")),
            Some(s) => Ok(s),
        }
    }
}

/// An attribute's bytes: its code, its length and its value.
pub open spec fn attribute_bytes(a: (u8, Seq<u8>)) -> Seq<u8> {
    seq![a.0, (a.1.len() + 2) as u8] + a.1
}

pub open spec fn attributes_bytes(v: Seq<(u8, Seq<u8>)>) -> Seq<u8>
    decreases v.len(),
{
    if v.len() == 0 {
        Seq::empty()
    } else {
        attributes_bytes(v.drop_last()) + attribute_bytes(v.last())
    }
}

/// An attribute that an answer repeats.
pub open spec fn proxy_state() -> spec_fn((u8, Seq<u8>)) -> bool {
    |a: (u8, Seq<u8>)| a.0 == 33
}

/// The attributes of an answer: the given ones, then the request's proxy state.
pub open spec fn answer_attributes(p: PacketModel, attrs: Seq<(u8, Seq<u8>)>) -> Seq<(u8, Seq<u8>)> {
    attrs + p.attrs.filter(proxy_state())
}

/// An answer before it is signed.
pub open spec fn unsigned_answer(p: PacketModel, code: u8, attrs: Seq<u8>) -> Seq<u8> {
    seq![code, p.identifier] + bytes16(38 + attrs.len()) + p.authenticator + seq![80u8, 18u8]
        + Seq::new(16, |i: int| 0u8) + attrs
}

/// An answer with its Message-Authenticator.
pub open spec fn sealed_answer(p: PacketModel, code: u8, secret: Seq<u8>, attrs: Seq<u8>) -> Seq<u8> {
    seq![code, p.identifier] + bytes16(38 + attrs.len()) + p.authenticator + seq![80u8, 18u8]
        + hmac_md5_of(secret, unsigned_answer(p, code, attrs)) + attrs
}

/// A complete answer: its authenticator is a hash of the request's, the attributes and the secret.
pub open spec fn signed_answer(p: PacketModel, code: u8, secret: Seq<u8>, attrs: Seq<u8>) -> Seq<u8> {
    seq![code, p.identifier] + bytes16(38 + attrs.len()) + md5_of(
        sealed_answer(p, code, secret, attrs) + secret,
    ) + seq![80u8, 18u8] + hmac_md5_of(secret, unsigned_answer(p, code, attrs)) + attrs
}

/// The answer to a request.
pub open spec fn answered_with(
    p: PacketModel,
    code: u8,
    secret: Seq<u8>,
    attrs: Seq<(u8, Seq<u8>)>,
) -> Result<Seq<u8>, Failure> {
    let all = answer_attributes(p, attrs);
    if exists|i: int| 0 <= i < all.len() && (#[trigger] all[i]).1.len() > 253 {
        Err(Failure::Bad("RADIUS response attribute is too long"@))
    } else if 38 + attributes_bytes(all).len() > 4096 {
        Err(Failure::Bad("RADIUS response exceeds packet limit"@))
    } else {
        Ok(signed_answer(p, code, secret, attributes_bytes(all)))
    }
}

#[verifier::loop_isolation(false)]
fn all_attributes(p: &Packet, attrs: &Vec<(u8, Vec<u8>)>) -> (r: Vec<(u8, Vec<u8>)>)
    ensures
        wire_pairs(r@) == answer_attributes(p@, wire_pairs(attrs@)),
{
    let mut out = copy_pairs(attrs);
    let ghost all = p@.attrs;
    let ghost base = wire_pairs(attrs@);
    let ghost f = proxy_state();
    let mut i: usize = 0;
    assert(base + all.take(0).filter(f) =~= base);
    while i < p.attrs.len()
        invariant
            i <= p.attrs.len(),
            wire_pairs(out@) == base + all.take(i as int).filter(f),
        decreases p.attrs.len() - i,
    {
        proof {
            assert(all[i as int] == (p.attrs[i as int].0, p.attrs[i as int].1@));
            assert(all.take(i + 1) =~= all.take(i as int).push(all[i as int]));
            all.take(i as int).lemma_filter_push(all[i as int], f);
        }
        if p.attrs[i].0 == 33 {
            let x = copy_bytes(&p.attrs[i].1);
            push_attribute(&mut out, 33, x);
            assert(wire_pairs(out@) =~= base + all.take(i + 1).filter(f));
        }
        i = i + 1;
    }
    assert(all.take(i as int) =~= all);
    out
}

#[verifier::loop_isolation(false)]
fn write_attributes(v: &Vec<(u8, Vec<u8>)>) -> (r: Option<Vec<u8>>)
    ensures
        ({
            let all = wire_pairs(v@);
            match r {
                None => exists|i: int| 0 <= i < all.len() && (#[trigger] all[i]).1.len() > 253,
                Some(b) => b@ == attributes_bytes(all) && !exists|i: int|
                    0 <= i < all.len() && (#[trigger] all[i]).1.len() > 253,
            }
        }),
{
    let ghost all = wire_pairs(v@);
    let mut out: Vec<u8> = Vec::new();
    let mut i: usize = 0;
    assert(all.take(0) =~= Seq::<(u8, Seq<u8>)>::empty());
    while i < v.len()
        invariant
            i <= v.len(),
            out@ == attributes_bytes(all.take(i as int)),
            forall|j: int| 0 <= j < i ==> (#[trigger] all[j]).1.len() <= 253,
        decreases v.len() - i,
    {
        let ghost was = out@;
        proof {
            assert(all[i as int] == (v[i as int].0, v[i as int].1@));
            assert(all.take(i + 1).drop_last() =~= all.take(i as int));
            assert(all.take(i + 1).last() == all[i as int]);
        }
        if v[i].1.len() > 253 {
            return None;
        }
        out.push(v[i].0);
        out.push((v[i].1.len() + 2) as u8);
        append_bytes(&mut out, &v[i].1);
        assert(out@ =~= was + attribute_bytes(all[i as int]));
        i = i + 1;
    }
    assert(all.take(i as int) =~= all);
    Some(out)
}

fn write_answer(p: &Packet, code: u8, authenticator: &Vec<u8>, mac: &Vec<u8>, attrs: &Vec<u8>) -> (r: Vec<
    u8,
>)
    requires
        38 + attrs.len() <= 4096,
    ensures
        r@ == seq![code, p@.identifier] + bytes16((38 + attrs.len()) as nat) + authenticator@ + seq![
            80u8,
            18u8,
        ] + mac@ + attrs@,
{
    let len: usize = 38 + attrs.len();
    let mut out: Vec<u8> = Vec::new();
    out.push(code);
    out.push(p.identifier);
    out.push((len / 256) as u8);
    out.push((len % 256) as u8);
    assert(out@ =~= seq![code, p@.identifier] + bytes16((38 + attrs.len()) as nat));
    append_bytes(&mut out, authenticator);
    let ghost head = out@;
    out.push(80);
    out.push(18);
    assert(out@ =~= head + seq![80u8, 18u8]);
    append_bytes(&mut out, mac);
    append_bytes(&mut out, attrs);
    out
}

impl Packet {
    /// Writes and signs the answer to the request.
    pub fn response(&self, code: u8, secret: &Vec<u8>, attributes: &Vec<(u8, Vec<u8>)>) -> (r: Result<
        Vec<u8>,
        Error,
    >)
        ensures
            match answered_with(self@, code, secret@, wire_pairs(attributes@)) {
                Ok(b) => r is Ok && r->Ok_0@ == b,
                Err(f) => fails(r, f),
            },
    {
        let all = all_attributes(self, attributes);
        let attrs = match write_attributes(&all) {
            None => return Err(Error::bad("RADIUS response attribute is too long")),
            Some(b) => b,
        };
        if attrs.len() > 4058 {
            return Err(Error::bad("RADIUS response exceeds packet limit"));
        }
        let unsigned = write_answer(self, code, &self.authenticator, &zeros(16), &attrs);
        let mac = hmac_md5(secret.as_slice(), unsigned.as_slice());
        let mut sealed = write_answer(self, code, &self.authenticator, &mac, &attrs);
        append_bytes(&mut sealed, secret);
        let hash = md5(sealed.as_slice());
        Ok(write_answer(self, code, &hash, &mac, &attrs))
    }
}

/// Attributes that can be repeated and fit on the wire.
pub open spec fn plain_attributes(v: Seq<(u8, Seq<u8>)>) -> bool {
    forall|i: int|
        0 <= i < v.len() ==> (#[trigger] v[i]).0 != 0 && !only_once(v[i].0) && v[i].1.len() <= 253
}

proof fn lemma_bytes_front(v: Seq<(u8, Seq<u8>)>)
    requires
        v.len() > 0,
    ensures
        attributes_bytes(v) == attribute_bytes(v[0]) + attributes_bytes(v.drop_first()),
    decreases v.len(),
{
    if v.len() == 1 {
        assert(v.drop_last() =~= Seq::<(u8, Seq<u8>)>::empty());
        assert(v.drop_first() =~= Seq::<(u8, Seq<u8>)>::empty());
        assert(attributes_bytes(v) =~= attribute_bytes(v[0]) + attributes_bytes(v.drop_first()));
    } else {
        lemma_bytes_front(v.drop_last());
        assert(v.drop_last().drop_first() =~= v.drop_first().drop_last());
        assert(v.drop_first().last() == v.last());
        assert(attributes_bytes(v) =~= attribute_bytes(v[0]) + attributes_bytes(v.drop_first()));
    }
}

/// Attributes that were written are read back as they were, whatever stands before them.
pub proof fn written_attributes_read_back(head: Seq<u8>, v: Seq<(u8, Seq<u8>)>, seen: Set<u8>)
    requires
        plain_attributes(v),
    ensures
        attributes_at(head + attributes_bytes(v), head.len() as int, seen) == Ok::<
            (Seq<(u8, Seq<u8>)>, Option<int>),
            Failure,
        >((v, None)),
    decreases v.len(),
{
    let b = head + attributes_bytes(v);
    if v.len() == 0 {
        assert(v =~= Seq::<(u8, Seq<u8>)>::empty());
    } else {
        lemma_bytes_front(v);
        let one = attribute_bytes(v[0]);
        let rest = v.drop_first();
        assert forall|i: int| 0 <= i < rest.len() implies (#[trigger] rest[i]).0 != 0 && !only_once(
            rest[i].0,
        ) && rest[i].1.len() <= 253 by {
            assert(rest[i] == v[i + 1]);
        }
        assert(b =~= (head + one) + attributes_bytes(rest));
        written_attributes_read_back(head + one, rest, seen);
        let at = head.len() as int;
        assert(b[at] == v[0].0);
        assert(b[at + 1] == (v[0].1.len() + 2) as u8);
        assert(b.subrange(at + 2, at + 2 + v[0].1.len()) =~= v[0].1);
        assert((head + one).len() == at + 2 + v[0].1.len());
        assert(seq![v[0]] + rest =~= v);
    }
}

/// A request is taken only with a Message-Authenticator that the secret made over all of it.
pub proof fn requests_are_authenticated(b: Seq<u8>, secret: Seq<u8>)
    requires
        decoded(b, secret) is Ok,
    ensures
        exists|at: int|
            20 <= at && at + 16 <= b.len() && #[trigger] b.subrange(at, at + 16) == hmac_md5_of(
                secret,
                blanked(b, at),
            ),
        first_value((decoded(b, secret)->Ok_0).attrs, 80) is Some,
{
    lemma_authenticator_fits(b, 20, Set::empty());
    let p = attributes_at(b, 20, Set::empty())->Ok_0;
    let at = p.1->0;
    assert(b.subrange(at, at + 16) == hmac_md5_of(secret, blanked(b, at)));
    lemma_authenticator_listed(b, 20, Set::empty());
}

proof fn lemma_authenticator_listed(b: Seq<u8>, at: int, seen: Set<u8>)
    requires
        0 <= at,
        attributes_at(b, at, seen) is Ok,
        (attributes_at(b, at, seen)->Ok_0).1 is Some,
    ensures
        first_value((attributes_at(b, at, seen)->Ok_0).0, 80) is Some,
    decreases b.len() - at,
{
    if at < b.len() {
        let code = b[at];
        let len = b[at + 1] as int;
        let next = if only_once(code) {
            seen.insert(code)
        } else {
            seen
        };
        let rest = attributes_at(b, at + len, next)->Ok_0;
        let all = attributes_at(b, at, seen)->Ok_0;
        if code != 80 {
            lemma_authenticator_listed(b, at + len, next);
            assert(all.0.drop_first() =~= rest.0);
        }
    }
}

/// The masking of one block with the same key twice gives the block back.
pub proof fn masking_twice_gives_back(a: Seq<u8>, key: Seq<u8>)
    ensures
        masked(masked(a, key), key) == a,
{
    assert forall|i: int| 0 <= i < a.len() implies masked(masked(a, key), key)[i] == a[i] by {
        let x = a[i];
        let k = key[i];
        assert((x ^ k) ^ k == x) by (bit_vector);
    }
    assert(masked(masked(a, key), key) =~= a);
}

/// How an answer looks: its code, the request's identifier, its own length, an authenticator made
/// from the request's and the secret, a Message-Authenticator, the attributes and then the request's
/// proxy state. It is refused only where an attribute or the whole does not fit.
pub proof fn answers_are_built_as_the_protocol_asks(
    p: PacketModel,
    code: u8,
    secret: Seq<u8>,
    attrs: Seq<(u8, Seq<u8>)>,
)
    requires
        p.authenticator.len() == 16,
        md5_of(
            sealed_answer(p, code, secret, attributes_bytes(answer_attributes(p, attrs))) + secret,
        ).len() == 16,
        hmac_md5_of(
            secret,
            unsigned_answer(p, code, attributes_bytes(answer_attributes(p, attrs))),
        ).len() == 16,
    ensures
        answered_with(p, code, secret, attrs) matches Ok(b) ==> {
            let all = attrs + p.attrs.filter(|a: (u8, Seq<u8>)| a.0 == 33);
            let body = attributes_bytes(all);
            &&& b.len() == 38 + body.len()
            &&& 38 <= b.len() <= 4096
            &&& b[0] == code
            &&& b[1] == p.identifier
            &&& b[2] as int * 256 + b[3] as int == b.len()
            &&& b[20] == 80 && b[21] == 18
            &&& b.subrange(38, b.len() as int) == body
            &&& b.subrange(4, 20) == md5_of(
                seq![b[0], b[1], b[2], b[3]] + p.authenticator + b.subrange(20, b.len() as int)
                    + secret,
            )
            &&& b.subrange(22, 38) == hmac_md5_of(
                secret,
                seq![b[0], b[1], b[2], b[3]] + p.authenticator + seq![80u8, 18u8] + Seq::new(
                    16,
                    |i: int| 0u8,
                ) + body,
            )
        },
        (forall|i: int| 0 <= i < attrs.len() ==> (#[trigger] attrs[i]).1.len() <= 253) && p.attrs.filter(
            |a: (u8, Seq<u8>)| a.0 == 33,
        ).len() == 0 && attributes_bytes(attrs).len() <= 4058 ==> answered_with(
            p,
            code,
            secret,
            attrs,
        ) is Ok,
{
    let f = |a: (u8, Seq<u8>)| a.0 == 33;
    assert(p.attrs.filter(f) == p.attrs.filter(proxy_state())) by {
        assert(f == proxy_state());
    }
    let all = answer_attributes(p, attrs);
    let body = attributes_bytes(all);
    if p.attrs.filter(f).len() == 0 {
        assert(all =~= attrs);
    }
    if let Ok(b) = answered_with(p, code, secret, attrs) {
        let n = (38 + body.len()) as nat;
        let len = bytes16(n);
        let head = seq![code, p.identifier] + len;
        let hash = md5_of(sealed_answer(p, code, secret, body) + secret);
        let mac = hmac_md5_of(secret, unsigned_answer(p, code, body));
        assert(len[0] as int * 256 + len[1] as int == n) by {
            assert(n <= 4096);
            assert(n / 256 < 256);
        }
        assert(b =~= head + hash + seq![80u8, 18u8] + mac + body);
        assert(b.subrange(38, b.len() as int) =~= body);
        assert(b.subrange(4, 20) =~= hash);
        assert(b.subrange(22, 38) =~= mac);
        assert(seq![b[0], b[1], b[2], b[3]] =~= head);
        assert(b.subrange(20, b.len() as int) =~= seq![80u8, 18u8] + mac + body);
        assert(sealed_answer(p, code, secret, body) =~= seq![b[0], b[1], b[2], b[3]] + p.authenticator
            + b.subrange(20, b.len() as int));
        assert(unsigned_answer(p, code, body) =~= seq![b[0], b[1], b[2], b[3]] + p.authenticator + seq![
            80u8,
            18u8,
        ] + Seq::new(16, |i: int| 0u8) + body);
    }
}

/// A password that was hidden as the protocol asks is read as it was: filled up with zeros to whole
/// blocks and masked with the secret and the request's authenticator.
pub proof fn hidden_passwords_are_read(
    p: PacketModel,
    secret: Seq<u8>,
    password: Seq<u8>,
    padding: nat,
)
    requires
        password.len() > 0,
        password.len() + padding <= 128,
        (password.len() + padding) % 16 == 0,
        forall|i: int| 0 <= i < password.len() ==> #[trigger] password[i] != 0,
        valid_utf8(password),
        first_value(p.attrs, 2) == Some(
            hidden(password + Seq::new(padding, |i: int| 0u8), secret, p.authenticator),
        ),
    ensures
        password_bytes(p, secret) == Ok::<Seq<u8>, Failure>(password),
{
    let zeros = Seq::new(padding, |i: int| 0u8);
    let plain = password + zeros;
    hidden_text_is_found_again(plain, secret, p.authenticator);
    lemma_first_zero_at(plain, password.len() as int);
    assert(plain.take(password.len() as int) =~= password);
    assert forall|i: int| password.len() <= i < plain.len() implies #[trigger] plain[i] == 0 by {}
}

proof fn lemma_first_zero_at(s: Seq<u8>, n: int)
    requires
        0 <= n <= s.len(),
        forall|i: int| 0 <= i < n ==> #[trigger] s[i] != 0,
        n < s.len() ==> s[n] == 0,
    ensures
        first_zero(s) == n,
    decreases n,
{
    if n > 0 {
        assert(s[0] != 0);
        assert forall|i: int| 0 <= i < n - 1 implies #[trigger] s.drop_first()[i] != 0 by {
            assert(s.drop_first()[i] == s[i + 1]);
        }
        if n < s.len() {
            assert(s.drop_first()[n - 1] == s[n]);
        }
        lemma_first_zero_at(s.drop_first(), n - 1);
    }
}

/// A request is read from a packet of the stated length that is a request and is signed with the
/// secret: it keeps the packet's number and authenticator, and every attribute stands in the packet.
pub proof fn requests_are_read_as_sent(b: Seq<u8>, secret: Seq<u8>)
    requires
        decoded(b, secret) is Ok,
    ensures
        ({
            let p = decoded(b, secret)->Ok_0;
            &&& 20 <= b.len() <= 4096
            &&& b[0] == 1
            &&& b[2] as int * 256 + b[3] as int == b.len()
            &&& p.identifier == b[1]
            &&& p.authenticator == b.subrange(4, 20)
            &&& exists|at: int|
                22 <= at <= b.len() - 16 && b[at - 2] == 80 && b[at - 1] == 18 && (#[trigger] b.subrange(at, at + 16))
                    == hmac_md5_of(secret, blanked(b, at))
        }),
{
    lemma_authenticator_place(b, 20, Set::empty());
    let at = attributes_at(b, 20, Set::empty())->Ok_0.1->0;
    assert(b.subrange(at, at + 16) == hmac_md5_of(secret, blanked(b, at)));
}

proof fn lemma_authenticator_place(b: Seq<u8>, at: int, seen: Set<u8>)
    requires
        at >= 0,
    ensures
        attributes_at(b, at, seen) matches Ok((_, Some(x))) ==> at + 2 <= x <= b.len() - 16 && b[x - 2] == 80
            && b[x - 1] == 18,
    decreases b.len() - at,
{
    if at + 2 <= b.len() {
        let code = b[at];
        let len = b[at + 1] as int;
        if 2 <= len <= b.len() - at {
            lemma_authenticator_place(
                b,
                at + len,
                if only_once(code) {
                    seen.insert(code)
                } else {
                    seen
                },
            );
        }
    }
}

} // verus!
