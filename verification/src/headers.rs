//! Request headers as the rules read them.
use crate::error::{Error, Failure, agrees_with, fails};
use crate::table::{Row, views};
use crate::text::{ascii_alphanumeric, ascii_graphic, concat, control, copy_opt, opt_text, same};
use vstd::prelude::*;
use vstd::string::*;

verus! {

/// A header: its name in lower case, and its value where that is visible ASCII text.
pub struct Header {
    pub name: String,
    pub value: Option<String>,
    /// The bytes of a value that is not: no rule reads them, and they are passed on as they are.
    pub raw: Vec<u8>,
}

/// What a [`Header`] holds.
pub struct HeaderModel {
    pub name: Seq<char>,
    pub value: Option<Seq<char>>,
    pub raw: Seq<u8>,
}

impl View for Header {
    type V = HeaderModel;

    open spec fn view(&self) -> HeaderModel {
        HeaderModel {
            name: self.name@,
            value: crate::text::opt_text(self.value),
            raw: self.raw@,
        }
    }
}

impl Row for Header {
    fn dup(&self) -> (r: Self) {
        Header {
            name: self.name.clone(),
            value: crate::text::copy_opt(&self.value),
            raw: crate::text::copy_bytes(&self.raw),
        }
    }
}

/// The values of the header `name`, in order.
pub open spec fn header_values(h: Seq<HeaderModel>, name: Seq<char>) -> Seq<Option<Seq<char>>>
    decreases h.len(),
{
    if h.len() == 0 {
        Seq::empty()
    } else {
        let rest = header_values(h.drop_last(), name);
        if h.last().name == name {
            rest.push(h.last().value)
        } else {
            rest
        }
    }
}

/// The views of a list of optional strings.
pub open spec fn opt_texts(v: Seq<Option<String>>) -> Seq<Option<Seq<char>>> {
    v.map_values(|o: Option<String>| opt_text(o))
}

pub fn all_values(headers: &Vec<Header>, name: &str) -> (r: Vec<Option<String>>)
    ensures
        opt_texts(r@) == header_values(views(headers@), name@),
        r.len() == header_values(views(headers@), name@).len(),
{
    let ghost all = views(headers@);
    let mut r: Vec<Option<String>> = Vec::new();
    let mut i: usize = 0;
    assert(all.take(0) =~= Seq::<HeaderModel>::empty());
    assert(opt_texts(r@) =~= header_values(all.take(0), name@));
    while i < headers.len()
        invariant
            i <= headers.len(),
            all == views(headers@),
            opt_texts(r@) == header_values(all.take(i as int), name@),
        decreases headers.len() - i,
    {
        let ghost was = opt_texts(r@);
        proof {
            assert(all.take(i + 1).drop_last() =~= all.take(i as int));
            assert(all.take(i + 1).last() == headers@[i as int]@);
        }
        if same(headers[i].name.as_str(), name) {
            r.push(copy_opt(&headers[i].value));
            assert(opt_texts(r@) =~= was.push(opt_text(headers@[i as int].value)));
        }
        i = i + 1;
    }
    assert(all.take(i as int) =~= all);
    assert(opt_texts(r@).len() == r.len());
    r
}

pub fn has_header(headers: &Vec<Header>, name: &str) -> (r: bool)
    ensures
        r == (header_values(views(headers@), name@).len() > 0),
{
    let v = all_values(headers, name);
    v.len() > 0
}

/// The one value of a header that must be there once.
pub open spec fn one_value(h: Seq<HeaderModel>, name: Seq<char>) -> Result<Seq<char>, Failure> {
    let v = header_values(h, name);
    if v.len() == 0 || v[0] is None {
        Err(Failure::Bad("Missing proxy "@ + name))
    } else if v.len() > 1 {
        Err(Failure::Bad("Duplicate proxy header"@))
    } else {
        Ok(v[0]->0)
    }
}

pub fn one(headers: &Vec<Header>, name: &str) -> (r: Result<String, Error>)
    ensures
        agrees_with(r, one_value(views(headers@), name@)),
{
    let v = all_values(headers, name);
    if v.len() == 0 {
        return Err(Error::Bad(concat("Missing proxy ", name)));
    }
    assert(opt_texts(v@)[0] == opt_text(v@[0]));
    match &v[0] {
        None => Err(Error::Bad(concat("Missing proxy ", name))),
        Some(s) => {
            if v.len() > 1 {
                Err(Error::bad("Duplicate proxy header"))
            } else {
                Ok(s.clone())
            }
        },
    }
}

/// The value of a header that may be there once.
pub open spec fn single_value(h: Seq<HeaderModel>, name: Seq<char>) -> Result<
    Option<Seq<char>>,
    Failure,
> {
    let v = header_values(h, name);
    if v.len() == 0 {
        Ok(None)
    } else if v[0] is None {
        Err(Failure::Bad("Invalid proxy header"@))
    } else if v.len() > 1 {
        Err(Failure::Bad("Duplicate proxy routing or protocol header"@))
    } else {
        Ok(v[0])
    }
}

pub fn single(headers: &Vec<Header>, name: &str) -> (r: Result<Option<String>, Error>)
    ensures
        match single_value(views(headers@), name@) {
            Ok(v) => r is Ok && opt_text(r->Ok_0) == v,
            Err(f) => fails(r, f),
        },
{
    let v = all_values(headers, name);
    if v.len() == 0 {
        return Ok(None);
    }
    assert(opt_texts(v@)[0] == opt_text(v@[0]));
    match &v[0] {
        None => Err(Error::bad("Invalid proxy header")),
        Some(s) => {
            if v.len() > 1 {
                Err(Error::bad("Duplicate proxy routing or protocol header"))
            } else {
                Ok(Some(s.clone()))
            }
        },
    }
}

/// A character that a header value can carry.
pub open spec fn header_char(c: char) -> bool {
    c == '\t' || (c >= ' ' && c != '\u{7f}')
}

/// A text that a header value can carry.
pub open spec fn header_value_text(s: Seq<char>) -> bool {
    forall|i: int| 0 <= i < s.len() ==> #[trigger] header_char(s[i])
}

/// `HeaderValue::from_str` of the http crate: every byte is a tab or at least a space, and none is
/// a delete.
#[verifier::external_body]
pub(crate) fn header_value_ok(s: &str) -> (r: bool)
    ensures
        r == header_value_text(s@),
{
    axum::http::HeaderValue::from_str(s).is_ok()
}

/// A character of a header's name.
pub open spec fn name_char(c: char) -> bool {
    ascii_alphanumeric(c) || c == '!' || c == '#' || c == '$' || c == '%' || c == '&' || c == '\'' || c == '*'
        || c == '+' || c == '-' || c == '.' || c == '^' || c == '_' || c == '`' || c == '|' || c == '~'
}

/// Whether a text names a header.
pub open spec fn header_name(s: Seq<char>) -> bool {
    1 <= s.len() <= 65535 && forall|i: int| 0 <= i < s.len() ==> name_char(#[trigger] s[i])
}

/// `HeaderName::from_bytes` of the http crate: whether it takes the text, which is one to 65535
/// characters long, each of them one of those that a name may have.
#[verifier::external_body]
pub(crate) fn header_name_ok(s: &str) -> (r: bool)
    ensures
        r == header_name(s@),
{
    axum::http::HeaderName::from_bytes(s.as_bytes()).is_ok()
}

/// The headers without those named `name`.
pub open spec fn removed(h: Seq<HeaderModel>, name: Seq<char>) -> Seq<HeaderModel> {
    h.filter(|x: HeaderModel| x.name != name)
}

/// The headers with one value for `name`, listed last.
pub open spec fn inserted(h: Seq<HeaderModel>, name: Seq<char>, value: Seq<char>) -> Seq<HeaderModel> {
    removed(h, name).push(HeaderModel { name, value: Some(value), raw: Seq::empty() })
}

pub fn remove(headers: &mut Vec<Header>, name: &str)
    ensures
        views(final(headers)@) == removed(views(old(headers)@), name@),
{
    let ghost all = views(headers@);
    let ghost p = |x: HeaderModel| x.name != name@;
    let mut r: Vec<Header> = Vec::new();
    let mut i: usize = 0;
    assert(views(r@) =~= all.take(0).filter(p));
    while i < headers.len()
        invariant
            i <= headers.len(),
            all == views(headers@),
            p == (|x: HeaderModel| x.name != name@),
            views(r@) == all.take(i as int).filter(p),
        decreases headers.len() - i,
    {
        let ghost was = views(r@);
        proof {
            assert(all.take(i + 1) =~= all.take(i as int).push(headers@[i as int]@));
            all.take(i as int).lemma_filter_push(headers@[i as int]@, p);
        }
        if !same(headers[i].name.as_str(), name) {
            r.push(headers[i].dup());
            assert(views(r@) =~= was.push(headers@[i as int]@));
        }
        i = i + 1;
    }
    assert(all.take(i as int) =~= all);
    *headers = r;
}

pub fn insert(headers: &mut Vec<Header>, name: &str, value: &str)
    ensures
        views(final(headers)@) == inserted(views(old(headers)@), name@, value@),
{
    remove(headers, name);
    let ghost was = views(headers@);
    headers.push(Header { name: name.to_owned(), value: Some(value.to_owned()), raw: Vec::new() });
    assert(views(headers@) =~= was.push(HeaderModel { name: name@, value: Some(value@), raw: Seq::empty() }));
}

/// A header that is set has that value and no other, and every other header stays as it is; one that is
/// taken out has none.
pub proof fn a_header_that_is_set_has_one_value(
    h: Seq<HeaderModel>,
    name: Seq<char>,
    value: Seq<char>,
    other: Seq<char>,
)
    ensures
        header_values(inserted(h, name, value), name) == seq![Some(value)],
        other != name ==> header_values(inserted(h, name, value), other) == header_values(h, other),
        header_values(removed(h, name), name) == Seq::<Option<Seq<char>>>::empty(),
        other != name ==> header_values(removed(h, name), other) == header_values(h, other),
{
    lemma_removed_values(h, name, other);
    lemma_removed_values(h, name, name);
    let x = HeaderModel { name, value: Some(value), raw: Seq::empty() };
    let r = removed(h, name);
    assert(r.push(x).drop_last() =~= r);
    assert(r.push(x).last() == x);
    assert(header_values(r, name).push(Some(value)) =~= seq![Some(value)]);
}

proof fn lemma_removed_values(h: Seq<HeaderModel>, name: Seq<char>, other: Seq<char>)
    ensures
        header_values(removed(h, name), other) == if other == name {
            Seq::<Option<Seq<char>>>::empty()
        } else {
            header_values(h, other)
        },
    decreases h.len(),
{
    reveal(Seq::filter);
    if h.len() > 0 {
        lemma_removed_values(h.drop_last(), name, other);
        let r = removed(h.drop_last(), name);
        if h.last().name != name {
            assert(removed(h, name) =~= r.push(h.last()));
            assert(r.push(h.last()).drop_last() =~= r);
            assert(r.push(h.last()).last() == h.last());
        } else {
            assert(removed(h, name) =~= r);
        }
    }
}

/// A header that is needed once is read where it was sent once, and only there.
pub proof fn needed_headers_are_sent_once(h: Seq<HeaderModel>, name: Seq<char>, value: Seq<char>)
    ensures
        one_value(h, name) == Ok::<Seq<char>, Failure>(value) <==> header_values(h, name) == seq![
            Some(value),
        ],
        single_value(h, name) == Ok::<Option<Seq<char>>, Failure>(Some(value)) <==> header_values(
            h,
            name,
        ) == seq![Some(value)],
        single_value(h, name) == Ok::<Option<Seq<char>>, Failure>(None) <==> header_values(
            h,
            name,
        ).len() == 0,
{
    let v = header_values(h, name);
    if v.len() == 1 && v[0] == Some(value) {
        assert(v =~= seq![Some(value)]);
    }
    assert(seq![Some(value)].len() == 1 && seq![Some(value)][0] == Some(value));
}

/// A header that must be there once is read if it is; one that may be there is absent, read or refused.
pub proof fn headers_are_read_once(h: Seq<HeaderModel>, name: Seq<char>, v: Seq<char>)
    ensures
        one_value(h, name) == Ok::<Seq<char>, Failure>(v) <==> header_values(h, name).len() == 1
            && header_values(h, name)[0] == Some(v),
        single_value(h, name) == Ok::<Option<Seq<char>>, Failure>(Some(v)) <==> header_values(h, name).len() == 1
            && header_values(h, name)[0] == Some(v),
        single_value(h, name) == Ok::<Option<Seq<char>>, Failure>(None) <==> header_values(h, name).len() == 0,
        header_values(h, name).len() > 1 ==> one_value(h, name) is Err && single_value(h, name) is Err,
{
}

/// A value has no control characters but the tab, and a name is made of letters, digits and the marks
/// that a token may have.
pub proof fn header_texts_are_harmless(c: char)
    ensures
        header_char(c) && c as u32 <= 127 <==> c as u32 <= 127 && (c == '\t' || !control(c)),
        name_char(c) ==> ascii_graphic(c) && c != ':' && c != '"' && c != '(' && c != ')' && c != ',' && c != ';'
            && c != '/' && c != '=' && c != '?' && c != '@' && c != '[' && c != ']' && c != '{' && c != '}' && c
            != '<' && c != '>' && c != '\\',
        ascii_alphanumeric(c) || c == '-' || c == '_' || c == '.' ==> name_char(c),
{
}

} // verus!
