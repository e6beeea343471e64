//! RADIUS with mandatory Message-Authenticator and duplicate handling.
pub mod cache;
pub mod eap;
pub mod enrollment;
pub mod material;
pub mod packet;
pub mod requests;

use crate::error::{Error, Failure, agrees, and_also, each, lemma_each_fails};
use crate::model::{Client, ClientModel};
use crate::rules::{Rules, RulesModel, name_check};
use crate::table::{Row, views};
use crate::text::{byte_count, byte_len, has_control, some_control};
use vstd::prelude::*;
use vstd::string::*;

verus! {

/// The value of a reply attribute.
pub enum ReplyValue {
    Text(String),
    Integer(u32),
    Ipv4(u8, u8, u8, u8),
    /// The user's attribute of this name.
    Attribute(String),
}

/// What a [`ReplyValue`] holds.
pub enum ReplyValueModel {
    Text(Seq<char>),
    Integer(u32),
    Ipv4(u8, u8, u8, u8),
    Attribute(Seq<char>),
}

impl View for ReplyValue {
    type V = ReplyValueModel;

    open spec fn view(&self) -> ReplyValueModel {
        match *self {
            ReplyValue::Text(t) => ReplyValueModel::Text(t@),
            ReplyValue::Integer(n) => ReplyValueModel::Integer(n),
            ReplyValue::Ipv4(a, b, c, d) => ReplyValueModel::Ipv4(a, b, c, d),
            ReplyValue::Attribute(t) => ReplyValueModel::Attribute(t@),
        }
    }
}

impl Row for ReplyValue {
    fn dup(&self) -> (r: Self) {
        match self {
            ReplyValue::Text(t) => ReplyValue::Text(t.clone()),
            ReplyValue::Integer(n) => ReplyValue::Integer(*n),
            ReplyValue::Ipv4(a, b, c, d) => ReplyValue::Ipv4(*a, *b, *c, *d),
            ReplyValue::Attribute(t) => ReplyValue::Attribute(t.clone()),
        }
    }
}

/// An attribute of a reply.
pub enum Attribute {
    Standard { code: u8, value: ReplyValue },
    Vendor { vendor: u32, code: u8, value: ReplyValue },
}

/// What an [`Attribute`] holds.
pub enum AttributeModel {
    Standard { code: u8, value: ReplyValueModel },
    Vendor { vendor: u32, code: u8, value: ReplyValueModel },
}

impl View for Attribute {
    type V = AttributeModel;

    open spec fn view(&self) -> AttributeModel {
        match *self {
            Attribute::Standard { code, value } => AttributeModel::Standard { code, value: value@ },
            Attribute::Vendor { vendor, code, value } => AttributeModel::Vendor {
                vendor,
                code,
                value: value@,
            },
        }
    }
}

impl Row for Attribute {
    fn dup(&self) -> (r: Self) {
        match self {
            Attribute::Standard { code, value } => Attribute::Standard {
                code: *code,
                value: value.dup(),
            },
            Attribute::Vendor { vendor, code, value } => Attribute::Vendor {
                vendor: *vendor,
                code: *code,
                value: value.dup(),
            },
        }
    }
}

/// What a client's users get in an accepted reply.
pub struct Settings {
    pub eap_tls: bool,
    pub reply: Vec<Attribute>,
}

/// What a [`Settings`] holds.
pub struct SettingsModel {
    pub eap_tls: bool,
    pub reply: Seq<AttributeModel>,
}

impl View for Settings {
    type V = SettingsModel;

    open spec fn view(&self) -> SettingsModel {
        SettingsModel {
            eap_tls: self.eap_tls,
            reply: crate::table::views(self.reply@),
        }
    }
}

impl Row for Settings {
    fn dup(&self) -> (r: Self) {
        Settings {
            eap_tls: self.eap_tls,
            reply: crate::table::dup_list(&self.reply),
        }
    }
}

/// A standard attribute that a reply may carry.
pub open spec fn reply_code(code: u8) -> bool {
    6 <= code <= 16 || 18 <= code <= 20 || code == 22 || code == 23 || code == 25 || 27 <= code <= 29
        || code == 34 || code == 35 || 37 <= code <= 39 || code == 64 || code == 65 || code == 81
}

/// The value has the wire type of the attribute `code`; what a user attribute holds is known later.
pub open spec fn fits_type(code: u8, value: ReplyValueModel) -> bool {
    match value {
        ReplyValueModel::Attribute(_) => true,
        ReplyValueModel::Ipv4(_, _, _, _) => code == 8 || code == 9 || code == 14,
        ReplyValueModel::Integer(n) => {
            ||| (code == 64 || code == 65) && n <= 0x00ff_ffff
            ||| code == 6 || code == 7 || code == 10 || code == 12 || code == 13 || code == 15 || code
                == 16 || code == 19 || code == 23 || 27 <= code <= 29 || code == 37 || code == 38
        },
        ReplyValueModel::Text(_) => !(6 <= code <= 10 || 12 <= code <= 16 || code == 19 || code == 23
            || 27 <= code <= 29 || code == 37 || code == 38 || code == 64 || code == 65),
    }
}

pub open spec fn type_check(code: u8, value: ReplyValueModel) -> Result<(), Failure> {
    if fits_type(code, value) {
        Ok(())
    } else {
        Err(Failure::Bad("RADIUS reply value has the wrong wire type for this attribute"@))
    }
}

/// A text that a reply can carry.
pub open spec fn reply_text(t: Seq<char>) -> bool {
    t.len() > 0 && byte_count(t) <= 200 && !some_control(t)
}

pub open spec fn value_check(value: ReplyValueModel, rules: RulesModel) -> Result<(), Failure> {
    match value {
        ReplyValueModel::Text(t) => if reply_text(t) {
            Ok(())
        } else {
            Err(Failure::Bad("Invalid RADIUS text value"@))
        },
        ReplyValueModel::Attribute(name) => name_check(rules, name),
        _ => Ok(()),
    }
}

pub open spec fn attribute_check(a: AttributeModel, eap_tls: bool, rules: RulesModel) -> Result<
    (),
    Failure,
> {
    match a {
        AttributeModel::Standard { code, value } => if !reply_code(code) {
            Err(Failure::Bad("RADIUS attribute is reserved or outside this reply profile"@))
        } else if eap_tls && code == 18 {
            Err(Failure::Bad("EAP replies cannot carry Reply-Message"@))
        } else {
            and_also(type_check(code, value), value_check(value, rules))
        },
        AttributeModel::Vendor { vendor, code, value } => if vendor == 0 || code == 0 || vendor == 311
            && (code == 16 || code == 17) {
            Err(Failure::Bad("Invalid or reserved RADIUS vendor attribute"@))
        } else {
            value_check(value, rules)
        },
    }
}

/// The check of one attribute.
pub open spec fn attribute_rule(eap_tls: bool, rules: RulesModel) -> spec_fn(
    AttributeModel,
) -> Result<(), Failure> {
    |a: AttributeModel| attribute_check(a, eap_tls, rules)
}

pub open spec fn settings_check(
    s: SettingsModel,
    c: ClientModel,
    rules: RulesModel,
) -> Result<(), Failure> {
    if c.service || !c.scopes.contains("radius"@) || s.reply.len() > 32 {
        Err(
            Failure::Bad(
                "RADIUS requires an interactive policy client, radius scope and at most 32 reply attributes"@,
            ),
        )
    } else {
        each(s.reply, attribute_rule(s.eap_tls, rules))
    }
}

fn reply_code_allowed(code: u8) -> (r: bool)
    ensures
        r == reply_code(code),
{
    (6 <= code && code <= 16) || (18 <= code && code <= 20) || code == 22 || code == 23 || code == 25
        || (27 <= code && code <= 29) || code == 34 || code == 35 || (37 <= code && code <= 39)
        || code == 64 || code == 65 || code == 81
}

/// Accepts a value of the wire type of the attribute `code`.
pub fn validate_type(code: u8, value: &ReplyValue) -> (r: Result<(), Error>)
    ensures
        agrees(r, type_check(code, value@)),
{
    let integer_code = code == 6 || code == 7 || code == 10 || code == 12 || code == 13 || code == 15
        || code == 16 || code == 19 || code == 23 || (27 <= code && code <= 29) || code == 37 || code
        == 38;
    let address_code = code == 8 || code == 9 || code == 14;
    let tunnel_code = code == 64 || code == 65;
    let valid = match value {
        ReplyValue::Attribute(_) => true,
        ReplyValue::Ipv4(_, _, _, _) => address_code,
        ReplyValue::Integer(n) => integer_code || tunnel_code && *n <= 0x00ff_ffff,
        ReplyValue::Text(_) => !integer_code && !address_code && !tunnel_code,
    };
    if valid {
        Ok(())
    } else {
        Err(Error::bad("RADIUS reply value has the wrong wire type for this attribute"))
    }
}

fn check_value(value: &ReplyValue, rules: &Rules) -> (r: Result<(), Error>)
    ensures
        agrees(r, value_check(value@, rules@)),
{
    match value {
        ReplyValue::Text(t) => {
            if t.as_str().is_empty() || byte_len(t.as_str()) > 200 || has_control(t.as_str()) {
                Err(Error::bad("Invalid RADIUS text value"))
            } else {
                Ok(())
            }
        },
        ReplyValue::Attribute(name) => rules.check_name(name.as_str()),
        _ => Ok(()),
    }
}

fn check_attribute(a: &Attribute, eap_tls: bool, rules: &Rules) -> (r: Result<(), Error>)
    ensures
        agrees(r, attribute_check(a@, eap_tls, rules@)),
{
    match a {
        Attribute::Standard { code, value } => {
            if !reply_code_allowed(*code) {
                return Err(
                    Error::bad("RADIUS attribute is reserved or outside this reply profile"),
                );
            }
            if eap_tls && *code == 18 {
                return Err(Error::bad("EAP replies cannot carry Reply-Message"));
            }
            if let Err(e) = validate_type(*code, value) {
                return Err(e);
            }
            check_value(value, rules)
        },
        Attribute::Vendor { vendor, code, value } => {
            if *vendor == 0 || *code == 0 || *vendor == 311 && (*code == 16 || *code == 17) {
                return Err(Error::bad("Invalid or reserved RADIUS vendor attribute"));
            }
            check_value(value, rules)
        },
    }
}

impl Settings {
    #[verifier::loop_isolation(false)]
    pub fn validate(&self, client: &Client, rules: &Rules) -> (r: Result<(), Error>)
        ensures
            agrees(r, settings_check(self@, client@, rules@)),
    {
        if client.service || !client.scopes.contains("radius") || self.reply.len() > 32 {
            return Err(
                Error::bad(
                    "RADIUS requires an interactive policy client, radius scope and at most 32 reply attributes",
                ),
            );
        }
        let ghost all = views(self.reply@);
        let ghost f = attribute_rule(self.eap_tls, rules@);
        let mut i: usize = 0;
        while i < self.reply.len()
            invariant
                i <= self.reply.len(),
                all == views(self.reply@),
                f == attribute_rule(self.eap_tls, rules@),
                each(all.take(i as int), f) is Ok,
            decreases self.reply.len() - i,
        {
            proof {
                assert(all.take(i + 1).drop_last() =~= all.take(i as int));
                assert(all.take(i + 1).last() == self.reply@[i as int]@);
            }
            if let Err(e) = check_attribute(&self.reply[i], self.eap_tls, rules) {
                proof {
                    lemma_each_fails(all, f, i + 1);
                }
                return Err(e);
            }
            i = i + 1;
        }
        assert(all.take(i as int) =~= all);
        Ok(())
    }
}

/// Each value has the type that its attribute has on the wire: an address for an address, a number for a
/// number, and a text for the rest.
pub proof fn reply_values_fit_their_attribute(code: u8, n: u32, t: Seq<char>)
    ensures
        fits_type(code, ReplyValueModel::Text(t)) ==> !fits_type(code, ReplyValueModel::Integer(n)),
        fits_type(8, ReplyValueModel::Ipv4(n as u8, 0, 0, 1)),
        code != 8 && code != 9 && code != 14 ==> !fits_type(
            code,
            ReplyValueModel::Ipv4(n as u8, 0, 0, 1),
        ),
        fits_type(27, ReplyValueModel::Integer(n)),
        fits_type(18, ReplyValueModel::Text(t)),
        fits_type(64, ReplyValueModel::Integer(n)) <==> n <= 0x00ff_ffff,
{
}

/// What a RADIUS client needs: users, its scope, and replies that an access server may get.
pub proof fn radius_clients_reply_what_they_may(
    s: SettingsModel,
    c: ClientModel,
    rules: RulesModel,
    code: u8,
    value: ReplyValueModel,
)
    requires
        settings_check(s, c, rules) is Ok,
        s.reply == seq![AttributeModel::Standard { code, value }],
    ensures
        !c.service && c.scopes.contains("radius"@),
        reply_code(code) && fits_type(code, value),
        s.eap_tls ==> code != 18,
        code != 1 && code != 2 && code != 3 && code != 24 && code != 79 && code != 80,
{
    let a = AttributeModel::Standard { code, value };
    assert(s.reply.last() == a);
}

/// A reply attribute is one that replies may carry, of its type, with a value that can be sent; a
/// vendor's is not one of those that carry session keys.
pub proof fn reply_attributes_may_be_sent(code: u8, vendor: u32, vcode: u8, value: ReplyValueModel, eap: bool, rules: RulesModel)
    ensures
        attribute_check((AttributeModel::Standard { code, value }), eap, rules) is Ok <==> reply_code(code) && !(eap
            && code == 18) && fits_type(code, value) && value_check(value, rules) is Ok,
        attribute_check((AttributeModel::Vendor { vendor, code: vcode, value }), eap, rules) is Ok <==> vendor != 0
            && vcode != 0 && !(vendor == 311 && (vcode == 16 || vcode == 17)) && value_check(value, rules) is Ok,
        value matches ReplyValueModel::Text(t) ==> (value_check(value, rules) is Ok <==> reply_text(t)),
        value matches ReplyValueModel::Attribute(n) ==> (value_check(value, rules) is Ok
            <==> !rules.bad_names.contains(n)),
{
}

/// A text can be sent if it is not empty, at most two hundred bytes and without control characters.
pub proof fn reply_texts_are_short(t: Seq<char>)
    ensures
        reply_text(t) <==> 0 < t.len() && byte_count(t) <= 200 && !some_control(t),
{
}

} // verus!
