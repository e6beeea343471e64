//! The exchange on one LDAP connection.
use crate::engine::extended;
use crate::error::{Error, Failure, fails, status_of};
use crate::ldap_server::filter::{Entry, EntryAttribute, EntryAttributeModel, EntryModel};
use crate::ldap_server::search::{SearchModel, SearchRequest, agent_name, directory, user_name};
use crate::model::User;
use crate::names::in_order;
use crate::rules::Rules;
use crate::store::{Tx, TxModel};
use crate::table::{Row, opt_view, views};
use crate::text::{among, ascii_digit, byte_count, byte_len, chars_of, copy_bytes, has_prefix, lower, opt_text, same, same_ignoring_case, slice_of, starts_with, texts};
use vstd::prelude::*;
use vstd::string::*;

verus! {

/// The result that an operation reports.
#[derive(Clone, Copy, PartialEq, Eq, Structural, Debug)]
pub enum ResultCode {
    Success,
    OperationsError,
    SizeLimitExceeded,
    AdminLimitExceeded,
    UnavailableCriticalExtension,
    ConfidentialityRequired,
    InappropriateMatching,
    NoSuchObject,
    InvalidCredentials,
    InsufficientAccessRights,
    Busy,
    Unavailable,
    UnwillingToPerform,
}

/// An operation that the directory does not perform.
#[derive(Clone, Copy, PartialEq, Eq, Structural, Debug)]
pub enum Operation {
    Modify,
    Insert,
    Delete,
    ModifyDn,
    Compare,
    Extended,
}

/// Who has bound, by the credential that the bind was made with.
pub enum Auth {
    Agent(String),
    User(String),
}

/// What an [`Auth`] holds.
pub enum AuthModel {
    Agent(Seq<char>),
    User(Seq<char>),
}

impl View for Auth {
    type V = AuthModel;

    open spec fn view(&self) -> AuthModel {
        match *self {
            Auth::Agent(t) => AuthModel::Agent(t@),
            Auth::User(t) => AuthModel::User(t@),
        }
    }
}

impl Row for Auth {
    fn dup(&self) -> (r: Self) {
        match self {
            Auth::Agent(t) => Auth::Agent(t.clone()),
            Auth::User(t) => Auth::User(t.clone()),
        }
    }
}

/// Where a paged search goes on.
pub struct Page {
    pub cookie: Vec<u8>,
    pub fingerprint: String,
    pub revision: u64,
    pub offset: usize,
    pub expires_at: u64,
}

/// What a [`Page`] holds.
pub struct PageModel {
    pub cookie: Seq<u8>,
    pub fingerprint: Seq<char>,
    pub revision: u64,
    pub offset: usize,
    pub expires_at: u64,
}

impl View for Page {
    type V = PageModel;

    open spec fn view(&self) -> PageModel {
        PageModel {
            cookie: self.cookie@,
            fingerprint: self.fingerprint@,
            revision: self.revision,
            offset: self.offset,
            expires_at: self.expires_at,
        }
    }
}

impl Row for Page {
    fn dup(&self) -> (r: Self) {
        Page {
            cookie: crate::text::copy_bytes(&self.cookie),
            fingerprint: self.fingerprint.clone(),
            revision: self.revision,
            offset: self.offset,
            expires_at: self.expires_at,
        }
    }
}

/// The state of a connection.
pub struct Connection {
    /// The connection is encrypted, or a local one that need not be.
    pub secured: bool,
    /// The connection can be encrypted.
    pub tls: bool,
    pub auth: Option<Auth>,
    pub page: Option<Page>,
    /// How many requests were received.
    pub served: u32,
}

/// What a [`Connection`] holds.
pub struct ConnectionModel {
    pub secured: bool,
    pub tls: bool,
    pub auth: Option<AuthModel>,
    pub page: Option<PageModel>,
    pub served: u32,
}

impl View for Connection {
    type V = ConnectionModel;

    open spec fn view(&self) -> ConnectionModel {
        ConnectionModel {
            secured: self.secured,
            tls: self.tls,
            auth: crate::table::opt_view(self.auth),
            page: crate::table::opt_view(self.page),
            served: self.served,
        }
    }
}

impl Row for Connection {
    fn dup(&self) -> (r: Self) {
        Connection {
            secured: self.secured,
            tls: self.tls,
            auth: crate::table::dup_opt(&self.auth),
            page: crate::table::dup_opt(&self.page),
            served: self.served,
        }
    }
}

/// A control of a request.
pub enum Control {
    /// A page of this size, after the one that ended with this cookie.
    Paged { size: i64, cookie: Vec<u8> },
    /// A control that may be ignored.
    Ignorable,
    /// A control that is not served.
    Critical,
}

/// What a [`Control`] holds.
pub enum ControlModel {
    Paged { size: i64, cookie: Seq<u8> },
    Ignorable,
    Critical,
}

impl View for Control {
    type V = ControlModel;

    open spec fn view(&self) -> ControlModel {
        match *self {
            Control::Paged { size, cookie } => ControlModel::Paged { size, cookie: cookie@ },
            Control::Ignorable => ControlModel::Ignorable,
            Control::Critical => ControlModel::Critical,
        }
    }
}

impl Row for Control {
    fn dup(&self) -> (r: Self) {
        match self {
            Control::Paged { size, cookie } => Control::Paged {
                size: *size,
                cookie: copy_bytes(cookie),
            },
            Control::Ignorable => Control::Ignorable,
            Control::Critical => Control::Critical,
        }
    }
}

/// A request on the connection.
pub enum Request {
    Unbind,
    Abandon,
    /// Encrypt the connection; `value` says whether the request carries a value.
    StartTls { value: bool },
    /// Bind as `dn`; the password of a simple bind.
    Bind { dn: String, simple: Option<String> },
    /// A search below `base`.
    Search { base: String },
    /// Who is bound; `value` says whether the request carries a value.
    WhoAmI { value: bool },
    /// An operation that the directory does not perform.
    Unserved(Operation),
    /// Anything else.
    Unknown,
}

/// What a [`Request`] holds.
pub enum RequestModel {
    Unbind,
    Abandon,
    StartTls { value: bool },
    Bind { dn: Seq<char>, simple: Option<Seq<char>> },
    Search { base: Seq<char> },
    WhoAmI { value: bool },
    Unserved(Operation),
    Unknown,
}

impl View for Request {
    type V = RequestModel;

    open spec fn view(&self) -> RequestModel {
        match *self {
            Request::Unbind => RequestModel::Unbind,
            Request::Abandon => RequestModel::Abandon,
            Request::StartTls { value } => RequestModel::StartTls { value },
            Request::Bind { dn, simple } => RequestModel::Bind { dn: dn@, simple: opt_text(simple) },
            Request::Search { base } => RequestModel::Search { base: base@ },
            Request::WhoAmI { value } => RequestModel::WhoAmI { value },
            Request::Unserved(op) => RequestModel::Unserved(op),
            Request::Unknown => RequestModel::Unknown,
        }
    }
}

/// What the connection does next.
pub enum Action {
    /// End the connection.
    Close,
    /// Wait for the next request.
    Wait,
    /// Refuse to encrypt the connection.
    RefuseTls,
    /// Agree to encrypt the connection, and encrypt it.
    StartTls,
    /// Answer a bind with this result.
    BindResult(ResultCode),
    /// Check these credentials and report them with [`Connection::bound`].
    CheckBind { dn: String, password: String },
    /// Answer a search with this result and no entries.
    SearchResult(ResultCode),
    /// Search, and report what was found with [`Connection::searched`]; the page that was asked for.
    Search { page: Option<(i64, Vec<u8>)> },
    /// Find out who is bound and answer.
    WhoAmI,
    /// Answer an operation with this result.
    Refuse(Operation, ResultCode),
}

/// What an [`Action`] holds.
pub enum ActionModel {
    Close,
    Wait,
    RefuseTls,
    StartTls,
    BindResult(ResultCode),
    CheckBind { dn: Seq<char>, password: Seq<char> },
    SearchResult(ResultCode),
    Search { page: Option<(i64, Seq<u8>)> },
    WhoAmI,
    Refuse(Operation, ResultCode),
}

/// The view of an optional page.
pub open spec fn opt_page(p: Option<(i64, Vec<u8>)>) -> Option<(i64, Seq<u8>)> {
    match p {
        Some(x) => Some((x.0, x.1@)),
        None => None,
    }
}

impl View for Action {
    type V = ActionModel;

    open spec fn view(&self) -> ActionModel {
        match *self {
            Action::Close => ActionModel::Close,
            Action::Wait => ActionModel::Wait,
            Action::RefuseTls => ActionModel::RefuseTls,
            Action::StartTls => ActionModel::StartTls,
            Action::BindResult(c) => ActionModel::BindResult(c),
            Action::CheckBind { dn, password } => ActionModel::CheckBind {
                dn: dn@,
                password: password@,
            },
            Action::SearchResult(c) => ActionModel::SearchResult(c),
            Action::Search { page } => ActionModel::Search { page: opt_page(page) },
            Action::WhoAmI => ActionModel::WhoAmI,
            Action::Refuse(op, c) => ActionModel::Refuse(op, c),
        }
    }
}

/// The page that the controls ask for; nothing where a control is not served.
pub open spec fn page_asked(c: Seq<ControlModel>) -> Option<Option<(i64, Seq<u8>)>>
    decreases c.len(),
{
    if c.len() == 0 {
        Some(None)
    } else {
        match (page_asked(c.drop_last()), c.last()) {
            (None, _) => None,
            (Some(None), ControlModel::Paged { size, cookie }) => Some(Some((size, cookie))),
            (Some(p), ControlModel::Ignorable) => Some(p),
            _ => None,
        }
    }
}

proof fn lemma_page_none(c: Seq<ControlModel>, n: int)
    requires
        0 <= n <= c.len(),
        page_asked(c.take(n)) is None,
    ensures
        page_asked(c) is None,
    decreases c.len() - n,
{
    if n < c.len() {
        assert(c.take(n + 1).drop_last() =~= c.take(n));
        lemma_page_none(c, n + 1);
    } else {
        assert(c.take(n) =~= c);
    }
}

fn find_page(controls: &Vec<Control>) -> (r: Option<Option<(i64, Vec<u8>)>>)
    ensures
        match page_asked(views(controls@)) {
            Some(p) => r is Some && opt_page(r->0) == p,
            None => r is None,
        },
{
    let ghost all = views(controls@);
    let mut found: Option<(i64, Vec<u8>)> = None;
    let mut i: usize = 0;
    assert(all.take(0) =~= Seq::<ControlModel>::empty());
    while i < controls.len()
        invariant
            i <= controls.len(),
            all == views(controls@),
            page_asked(all.take(i as int)) == Some(opt_page(found)),
        decreases controls.len() - i,
    {
        proof {
            assert(all.take(i + 1).drop_last() =~= all.take(i as int));
            assert(all.take(i + 1).last() == controls@[i as int]@);
            if page_asked(all.take(i + 1)) is None {
                lemma_page_none(all, i + 1);
            }
        }
        match &controls[i] {
            Control::Paged { size, cookie } => {
                if found.is_some() {
                    return None;
                }
                found = Some((*size, copy_bytes(cookie)));
            },
            Control::Ignorable => {},
            Control::Critical => return None,
        }
        i = i + 1;
    }
    assert(all.take(i as int) =~= all);
    Some(found)
}

/// A password that is checked.
pub open spec fn checked_password(p: Option<Seq<char>>) -> bool {
    p matches Some(s) && s.len() > 0 && byte_count(s) <= 4096
}

/// The connection without a binding and without a page.
pub open spec fn unauthenticated(c: ConnectionModel) -> ConnectionModel {
    ConnectionModel { auth: None, page: None, ..c }
}

/// How the connection answers a request, the binding that ends with it, and the state after it. A
/// connection serves at most a thousand requests.
pub open spec fn received(
    c: ConnectionModel,
    id: i32,
    q: RequestModel,
    controls: Seq<ControlModel>,
) -> (ConnectionModel, Option<AuthModel>, ActionModel) {
    let n = ConnectionModel {
        served: if c.served < 1000 {
            (c.served + 1) as u32
        } else {
            c.served
        },
        ..c
    };
    if c.served >= 1000 || id <= 0 {
        (n, None, ActionModel::Close)
    } else {
        match q {
            RequestModel::Unbind => (n, None, ActionModel::Close),
            RequestModel::Abandon => (n, None, ActionModel::Wait),
            RequestModel::StartTls { value } => (
                unauthenticated(n),
                c.auth,
                if c.secured || !c.tls || value || controls.len() > 0 {
                    ActionModel::RefuseTls
                } else {
                    ActionModel::StartTls
                },
            ),
            RequestModel::Bind { dn, simple } => (
                unauthenticated(n),
                c.auth,
                if !c.secured {
                    ActionModel::BindResult(ResultCode::ConfidentialityRequired)
                } else if controls.len() == 0 && checked_password(simple) {
                    ActionModel::CheckBind { dn, password: simple->0 }
                } else {
                    ActionModel::BindResult(ResultCode::InvalidCredentials)
                },
            ),
            RequestModel::Search { base } => (
                n,
                None,
                match page_asked(controls) {
                    None => ActionModel::SearchResult(ResultCode::UnavailableCriticalExtension),
                    Some(page) => if !c.secured && base.len() > 0 {
                        ActionModel::SearchResult(ResultCode::ConfidentialityRequired)
                    } else {
                        ActionModel::Search { page }
                    },
                },
            ),
            RequestModel::WhoAmI { value } => (
                n,
                None,
                if !value && controls.len() == 0 {
                    ActionModel::WhoAmI
                } else {
                    ActionModel::Refuse(
                        Operation::Extended,
                        ResultCode::UnavailableCriticalExtension,
                    )
                },
            ),
            RequestModel::Unserved(op) => (
                n,
                None,
                ActionModel::Refuse(
                    op,
                    match op {
                        Operation::Extended => ResultCode::UnavailableCriticalExtension,
                        _ => ResultCode::UnwillingToPerform,
                    },
                ),
            ),
            RequestModel::Unknown => (n, None, ActionModel::Close),
        }
    }
}

/// How the check of credentials ended.
pub enum BindOutcome {
    Accepted(Auth),
    /// The credentials were refused.
    Refused,
    /// They could not be checked.
    Unavailable,
}

/// The entries of a search that are sent, with the result and the paging control.
pub struct SearchAnswer {
    pub entries: Vec<Entry>,
    pub code: ResultCode,
    /// How many entries there are in all, and the cookie for the next page.
    pub page: Option<PageControl>,
}

/// What a [`SearchAnswer`] holds.
pub struct SearchAnswerModel {
    pub entries: Seq<EntryModel>,
    pub code: ResultCode,
    pub page: Option<PageControlModel>,
}

impl View for SearchAnswer {
    type V = SearchAnswerModel;

    open spec fn view(&self) -> SearchAnswerModel {
        SearchAnswerModel {
            entries: crate::table::views(self.entries@),
            code: self.code,
            page: crate::table::opt_view(self.page),
        }
    }
}

impl Row for SearchAnswer {
    fn dup(&self) -> (r: Self) {
        SearchAnswer {
            entries: crate::table::dup_list(&self.entries),
            code: self.code,
            page: crate::table::dup_opt(&self.page),
        }
    }
}

/// A paging control.
pub struct PageControl {
    pub size: usize,
    pub cookie: Vec<u8>,
}

/// What a [`PageControl`] holds.
pub struct PageControlModel {
    pub size: usize,
    pub cookie: Seq<u8>,
}

impl View for PageControl {
    type V = PageControlModel;

    open spec fn view(&self) -> PageControlModel {
        PageControlModel {
            size: self.size,
            cookie: self.cookie@,
        }
    }
}

impl Row for PageControl {
    fn dup(&self) -> (r: Self) {
        PageControl {
            size: self.size,
            cookie: crate::text::copy_bytes(&self.cookie),
        }
    }
}

/// An attribute that the request asks for.
pub open spec fn wanted(attrs: Seq<Seq<char>>) -> spec_fn(EntryAttributeModel) -> bool {
    |a: EntryAttributeModel|
        ((attrs.len() == 0 || attrs.contains("*"@)) && a.name != "entryUUID"@) || (attrs.contains("+"@)
            && a.name == "entryUUID"@) || (exists|i: int|
            0 <= i < attrs.len() && lower(#[trigger] attrs[i]) == lower(a.name))
}

/// An entry with the attributes that the request asks for, without values where it wants none.
pub open spec fn projected(e: EntryModel, attrs: Seq<Seq<char>>, typesonly: bool) -> EntryModel {
    let kept = e.attributes.filter(wanted(attrs));
    EntryModel {
        dn: e.dn,
        attributes: if typesonly {
            kept.map_values(
                |a: EntryAttributeModel|
                    EntryAttributeModel { name: a.name, vals: Seq::empty() },
            )
        } else {
            kept
        },
    }
}

/// The entries as they are sent.
pub open spec fn sent(rows: Seq<EntryModel>, attrs: Seq<Seq<char>>, typesonly: bool) -> Seq<EntryModel> {
    rows.map_values(|e: EntryModel| projected(e, attrs, typesonly))
}

/// Where a page starts: after the page whose cookie the request repeats.
pub open spec fn page_start(
    p: Option<PageModel>,
    cookie: Seq<u8>,
    fingerprint: Seq<char>,
    revision: u64,
    now: u64,
) -> Option<usize> {
    if cookie.len() == 0 {
        Some(0)
    } else if p is Some && (p->0).cookie == cookie && (p->0).fingerprint == fingerprint && (
    p->0).revision == revision && (p->0).expires_at > now {
        Some((p->0).offset)
    } else {
        None
    }
}

/// Finished searches and the state after them.
pub open spec fn search_answer(
    c: ConnectionModel,
    found: Seq<EntryModel>,
    revision: u64,
    q: SearchModel,
    page: Option<(i64, Seq<u8>)>,
    fingerprint: Seq<char>,
    cookie: Seq<u8>,
    now: u64,
) -> (ConnectionModel, SearchAnswerModel) {
    let limited = q.sizelimit > 0 && found.len() > q.sizelimit;
    let rows = if limited {
        found.take(q.sizelimit as int)
    } else {
        found
    };
    let total = rows.len();
    let code = if limited {
        ResultCode::SizeLimitExceeded
    } else {
        ResultCode::Success
    };
    let none = ConnectionModel { page: None, ..c };
    let refused = |r: ResultCode|
        SearchAnswerModel { entries: Seq::empty(), code: r, page: None };
    match page {
        None => (
            none,
            SearchAnswerModel { entries: sent(rows, q.attrs, q.typesonly), code, page: None },
        ),
        Some((size, given_cookie)) => match page_start(
            c.page,
            given_cookie,
            fingerprint,
            revision,
            now,
        ) {
            None => (none, refused(ResultCode::UnwillingToPerform)),
            Some(offset) => if !(0 <= size <= 500) || offset > total {
                (none, refused(ResultCode::AdminLimitExceeded))
            } else {
                let end = if offset + size <= total {
                    offset + size
                } else {
                    total as int
                };
                let more = size > 0 && end < total;
                let slice = rows.subrange(offset as int, end as int);
                (
                    if more && !limited {
                        ConnectionModel {
                            page: Some(
                                PageModel {
                                    cookie,
                                    fingerprint,
                                    revision,
                                    offset: end as usize,
                                    expires_at: extended(now, 300),
                                },
                            ),
                            ..c
                        }
                    } else {
                        none
                    },
                    SearchAnswerModel {
                        entries: sent(slice, q.attrs, q.typesonly),
                        code,
                        page: if limited {
                            None
                        } else {
                            Some(
                                PageControlModel {
                                    size: total as usize,
                                    cookie: if more {
                                        cookie
                                    } else {
                                        Seq::empty()
                                    },
                                },
                            )
                        },
                    },
                )
            },
        },
    }
}

fn is_wanted(a: &EntryAttribute, attrs: &Vec<String>) -> (r: bool)
    ensures
        r == wanted(texts(attrs@))(a@),
{
    let ghost all = texts(attrs@);
    assert(all.len() == attrs.len());
    let uuid = same(a.name.as_str(), "entryUUID");
    if (attrs.len() == 0 || among("*", attrs)) && !uuid {
        return true;
    }
    if among("+", attrs) && uuid {
        return true;
    }
    let mut i: usize = 0;
    while i < attrs.len()
        invariant
            i <= attrs.len(),
            all == texts(attrs@),
            !((all.len() == 0 || all.contains("*"@)) && a@.name != "entryUUID"@),
            !(all.contains("+"@) && a@.name == "entryUUID"@),
            forall|j: int| 0 <= j < i ==> lower(#[trigger] all[j]) != lower(a@.name),
        decreases attrs.len() - i,
    {
        assert(all[i as int] == attrs@[i as int]@);
        if same_ignoring_case(attrs[i].as_str(), a.name.as_str()) {
            return true;
        }
        i = i + 1;
    }
    false
}

fn project(e: &Entry, attrs: &Vec<String>, typesonly: bool) -> (r: Entry)
    ensures
        r@ == projected(e@, texts(attrs@), typesonly),
{
    let ghost all = views(e.attributes@);
    let ghost p = wanted(texts(attrs@));
    let ghost f = |a: EntryAttributeModel| EntryAttributeModel { name: a.name, vals: Seq::<Seq<char>>::empty() };
    let mut out: Vec<EntryAttribute> = Vec::new();
    let ghost mut kept = Seq::<EntryAttributeModel>::empty();
    let mut i: usize = 0;
    assert(all.take(0).filter(p) =~= Seq::<EntryAttributeModel>::empty());
    assert(views(out@) =~= Seq::<EntryAttributeModel>::empty());
    while i < e.attributes.len()
        invariant
            i <= e.attributes.len(),
            all == views(e.attributes@),
            p == wanted(texts(attrs@)),
            f == (|a: EntryAttributeModel| EntryAttributeModel { name: a.name, vals: Seq::<Seq<char>>::empty() }),
            kept == all.take(i as int).filter(p),
            typesonly ==> views(out@) =~= kept.map_values(f),
            !typesonly ==> views(out@) == kept,
        decreases e.attributes.len() - i,
    {
        let a = &e.attributes[i];
        proof {
            assert(all.take(i + 1) =~= all.take(i as int).push(e.attributes@[i as int]@));
            all.take(i as int).lemma_filter_push(e.attributes@[i as int]@, p);
        }
        if is_wanted(a, attrs) {
            let ghost was = views(out@);
            if typesonly {
                let none: Vec<String> = Vec::new();
                assert(texts(none@) =~= Seq::<Seq<char>>::empty());
                out.push(EntryAttribute { name: a.name.clone(), vals: none });
                assert(views(out@) =~= was.push(f(a@)));
            } else {
                out.push(a.dup());
                assert(views(out@) =~= was.push(a@));
            }
            proof {
                kept = kept.push(a@);
            }
        }
        i = i + 1;
    }
    assert(all.take(i as int) =~= all);
    assert(typesonly ==> views(out@) == kept.map_values(f));
    Entry { dn: e.dn.clone(), attributes: out }
}

fn project_range(rows: &Vec<Entry>, from: usize, to: usize, attrs: &Vec<String>, typesonly: bool) -> (r:
    Vec<Entry>)
    requires
        from <= to <= rows.len(),
    ensures
        views(r@) == sent(
            views(rows@).subrange(from as int, to as int),
            texts(attrs@),
            typesonly,
        ),
{
    let ghost all = views(rows@);
    let mut r: Vec<Entry> = Vec::new();
    let mut i: usize = from;
    assert(views(r@) =~= sent(all.subrange(from as int, i as int), texts(attrs@), typesonly));
    while i < to
        invariant
            from <= i <= to <= rows.len(),
            all == views(rows@),
            views(r@) == sent(all.subrange(from as int, i as int), texts(attrs@), typesonly),
        decreases to - i,
    {
        let ghost was = views(r@);
        let e = project(&rows[i], attrs, typesonly);
        let ghost em = e@;
        r.push(e);
        proof {
            assert(views(r@) =~= was.push(em));
            assert(all.subrange(from as int, i + 1) =~= all.subrange(from as int, i as int).push(
                all[i as int],
            ));
            assert(sent(all.subrange(from as int, i + 1), texts(attrs@), typesonly) =~= was.push(em));
        }
        i = i + 1;
    }
    r
}

/// The result code for a failure, by its HTTP status.
pub open spec fn mapped_code(f: Failure) -> ResultCode {
    let s = status_of(f);
    if s == 400 {
        ResultCode::InappropriateMatching
    } else if s == 401 || s == 403 {
        ResultCode::InsufficientAccessRights
    } else if s == 404 {
        ResultCode::NoSuchObject
    } else if s == 409 || s == 429 {
        ResultCode::Busy
    } else {
        ResultCode::Unavailable
    }
}

pub fn mapped(error: &Error) -> (r: ResultCode)
    ensures
        r == mapped_code(error@),
{
    let s = error.status();
    if s == 400 {
        ResultCode::InappropriateMatching
    } else if s == 401 || s == 403 {
        ResultCode::InsufficientAccessRights
    } else if s == 404 {
        ResultCode::NoSuchObject
    } else if s == 409 || s == 429 {
        ResultCode::Busy
    } else {
        ResultCode::Unavailable
    }
}

fn same_bytes(a: &Vec<u8>, b: &Vec<u8>) -> (r: bool)
    ensures
        r == (a@ == b@),
{
    if a.len() != b.len() {
        return false;
    }
    let mut i: usize = 0;
    while i < a.len()
        invariant
            i <= a.len(),
            a.len() == b.len(),
            forall|j: int| 0 <= j < i ==> a@[j] == b@[j],
        decreases a.len() - i,
    {
        if a[i] != b[i] {
            return false;
        }
        i = i + 1;
    }
    assert(a@ =~= b@);
    true
}

impl Connection {
    /// A new connection. A local one need not be encrypted; one that starts encrypted is.
    pub fn open(local_unencrypted: bool, ldaps: bool, tls: bool) -> (c: Connection)
        ensures
            c@ == (ConnectionModel {
                secured: local_unencrypted || ldaps,
                tls,
                auth: None,
                page: None,
                served: 0,
            }),
    {
        Connection { secured: local_unencrypted || ldaps, tls, auth: None, page: None, served: 0 }
    }

    /// Takes a request: what to do, and the binding that ends with it.
    pub fn receive(&mut self, id: i32, request: &Request, controls: &Vec<Control>) -> (r: (
        Option<Auth>,
        Action,
    ))
        ensures
            ({
                let out = received(old(self)@, id, request@, views(controls@));
                final(self)@ == out.0 && opt_view(r.0) == out.1 && r.1@ == out.2
            }),
    {
        assert(views(controls@).len() == controls.len());
        let over = self.served >= 1000;
        if !over {
            self.served = self.served + 1;
        }
        if over || id <= 0 {
            return (None, Action::Close);
        }
        match request {
            Request::Unbind => (None, Action::Close),
            Request::Abandon => (None, Action::Wait),
            Request::StartTls { value } => {
                let ended = self.auth.take();
                self.page = None;
                if self.secured || !self.tls || *value || controls.len() > 0 {
                    (ended, Action::RefuseTls)
                } else {
                    (ended, Action::StartTls)
                }
            },
            Request::Bind { dn, simple } => {
                let ended = self.auth.take();
                self.page = None;
                if !self.secured {
                    return (ended, Action::BindResult(ResultCode::ConfidentialityRequired));
                }
                if controls.len() == 0 {
                    if let Some(p) = simple {
                        if !p.as_str().is_empty() && byte_len(p.as_str()) <= 4096 {
                            return (
                                ended,
                                Action::CheckBind { dn: dn.clone(), password: p.clone() },
                            );
                        }
                    }
                }
                (ended, Action::BindResult(ResultCode::InvalidCredentials))
            },
            Request::Search { base } => match find_page(controls) {
                None => (None, Action::SearchResult(ResultCode::UnavailableCriticalExtension)),
                Some(page) => {
                    if !self.secured && !base.as_str().is_empty() {
                        (None, Action::SearchResult(ResultCode::ConfidentialityRequired))
                    } else {
                        (None, Action::Search { page })
                    }
                },
            },
            Request::WhoAmI { value } => {
                if !*value && controls.len() == 0 {
                    (None, Action::WhoAmI)
                } else {
                    (
                        None,
                        Action::Refuse(
                            Operation::Extended,
                            ResultCode::UnavailableCriticalExtension,
                        ),
                    )
                }
            },
            Request::Unserved(op) => {
                let code = match op {
                    Operation::Extended => ResultCode::UnavailableCriticalExtension,
                    _ => ResultCode::UnwillingToPerform,
                };
                (None, Action::Refuse(*op, code))
            },
            Request::Unknown => (None, Action::Close),
        }
    }

    /// Notes that the connection was encrypted.
    pub fn encrypted(&mut self)
        ensures
            final(self)@ == (ConnectionModel { secured: true, ..old(self)@ }),
    {
        self.secured = true;
    }

    /// Takes the outcome of checking credentials: the result that the bind is answered with.
    pub fn bound(&mut self, outcome: BindOutcome) -> (code: ResultCode)
        ensures
            match outcome {
                BindOutcome::Accepted(a) => code == ResultCode::Success && final(self)@ == (
                ConnectionModel { auth: Some(a@), ..old(self)@ }),
                BindOutcome::Refused => code == ResultCode::InvalidCredentials && final(self)@ == old(
                    self,
                )@,
                BindOutcome::Unavailable => code == ResultCode::Unavailable && final(self)@ == old(
                    self,
                )@,
            },
    {
        match outcome {
            BindOutcome::Accepted(a) => {
                self.auth = Some(a);
                ResultCode::Success
            },
            BindOutcome::Refused => ResultCode::InvalidCredentials,
            BindOutcome::Unavailable => ResultCode::Unavailable,
        }
    }

    /// Takes a search that failed: the result that it is answered with.
    pub fn search_failed(&mut self, error: &Error) -> (code: ResultCode)
        ensures
            code == mapped_code(error@),
            final(self)@ == (ConnectionModel { page: None, ..old(self)@ }),
    {
        self.page = None;
        mapped(error)
    }

    /// Takes what a search found: the entries to send, the result and the paging control.
    /// `fingerprint` identifies the request, and `cookie` is a new random cookie.
    pub fn searched(
        &mut self,
        found: &Vec<Entry>,
        revision: u64,
        query: &SearchRequest,
        page: &Option<(i64, Vec<u8>)>,
        fingerprint: &str,
        cookie: Vec<u8>,
        now: u64,
    ) -> (r: SearchAnswer)
        ensures
            ({
                let out = search_answer(
                    old(self)@,
                    views(found@),
                    revision,
                    query@,
                    opt_page(*page),
                    fingerprint@,
                    cookie@,
                    now,
                );
                final(self)@ == out.0 && r@ == out.1
            }),
    {
        let ghost all = views(found@);
        let limited = query.sizelimit > 0 && found.len() > query.sizelimit as usize;
        let total: usize = if limited {
            query.sizelimit as usize
        } else {
            found.len()
        };
        let ghost rows = if limited {
            all.take(query.sizelimit as int)
        } else {
            all
        };
        assert(rows.len() == total);
        let code = if limited {
            ResultCode::SizeLimitExceeded
        } else {
            ResultCode::Success
        };
        let previous = self.page.take();
        match page {
            None => {
                let entries = project_range(found, 0, total, &query.attrs, query.typesonly);
                assert(all.subrange(0, total as int) =~= rows);
                SearchAnswer { entries, code, page: None }
            },
            Some((size, given_cookie)) => {
                let start: Option<usize> = if given_cookie.len() == 0 {
                    Some(0)
                } else {
                    match &previous {
                        Some(p) => {
                            if same_bytes(&p.cookie, given_cookie) && same(
                                p.fingerprint.as_str(),
                                fingerprint,
                            ) && p.revision == revision && p.expires_at > now {
                                Some(p.offset)
                            } else {
                                None
                            }
                        },
                        None => None,
                    }
                };
                let nothing: Vec<Entry> = Vec::new();
                assert(views(nothing@) =~= Seq::<EntryModel>::empty());
                let offset = match start {
                    Some(o) => o,
                    None => {
                        return SearchAnswer {
                            entries: nothing,
                            code: ResultCode::UnwillingToPerform,
                            page: None,
                        };
                    },
                };
                if *size < 0 || *size > 500 || offset > total {
                    return SearchAnswer {
                        entries: nothing,
                        code: ResultCode::AdminLimitExceeded,
                        page: None,
                    };
                }
                let step: usize = *size as usize;
                let end: usize = if step <= total - offset {
                    offset + step
                } else {
                    total
                };
                let more = step > 0 && end < total;
                let entries = project_range(found, offset, end, &query.attrs, query.typesonly);
                assert(all.subrange(offset as int, end as int) =~= rows.subrange(
                    offset as int,
                    end as int,
                ));
                if limited {
                    return SearchAnswer { entries, code, page: None };
                }
                let next: Vec<u8> = if more {
                    copy_bytes(&cookie)
                } else {
                    Vec::new()
                };
                assert(!more ==> next@ =~= Seq::<u8>::empty());
                if more {
                    self.page = Some(
                        Page {
                            cookie,
                            fingerprint: fingerprint.to_owned(),
                            revision,
                            offset: end,
                            expires_at: now.saturating_add(300),
                        },
                    );
                }
                SearchAnswer { entries, code, page: Some(PageControl { size: total, cookie: next }) }
            },
        }
    }
}

/// No credentials are checked and nothing below a base is searched before the connection is
/// encrypted, unless it is a local one that need not be.
pub proof fn nothing_is_told_in_clear(
    c: ConnectionModel,
    id: i32,
    q: RequestModel,
    controls: Seq<ControlModel>,
)
    requires
        !c.secured,
    ensures
        !(received(c, id, q, controls).2 is CheckBind),
        received(c, id, q, controls).2 is Search ==> (q matches RequestModel::Search { base }
            && base.len() == 0),
        received(c, id, q, controls).0.secured == c.secured,
{
}

/// Encrypting the connection and every bind end the binding that was there.
pub proof fn binding_again_drops_the_old_binding(
    c: ConnectionModel,
    id: i32,
    q: RequestModel,
    controls: Seq<ControlModel>,
)
    requires
        c.served < 1000,
        id > 0,
        q is Bind || q is StartTls,
    ensures
        received(c, id, q, controls).0.auth is None,
        received(c, id, q, controls).0.page is None,
        received(c, id, q, controls).1 == c.auth,
{
}

/// Pages of one search, asked for with the cookies that were given, are consecutive.
pub proof fn pages_are_consecutive(
    c: ConnectionModel,
    found: Seq<EntryModel>,
    revision: u64,
    q: SearchModel,
    size: i64,
    given_cookie: Seq<u8>,
    fingerprint: Seq<char>,
    cookie: Seq<u8>,
    now: u64,
    next_size: i64,
    next_cookie: Seq<u8>,
)
    requires
        found.len() <= usize::MAX,
        q.sizelimit == 0,
        !q.typesonly,
        0 < size <= 500,
        0 <= next_size <= 500,
        cookie.len() > 0,
        now + 300 < u64::MAX,
        ({
            let out = search_answer(
                c,
                found,
                revision,
                q,
                Some((size, given_cookie)),
                fingerprint,
                cookie,
                now,
            );
            out.0.page is Some
        }),
    ensures
        ({
            let out = search_answer(
                c,
                found,
                revision,
                q,
                Some((size, given_cookie)),
                fingerprint,
                cookie,
                now,
            );
            let at = (out.0.page->0).offset as int;
            let last = search_answer(
                out.0,
                found,
                revision,
                q,
                Some((next_size, cookie)),
                fingerprint,
                next_cookie,
                now,
            );
            let end = if at + next_size <= found.len() {
                at + next_size
            } else {
                found.len() as int
            };
            &&& out.1.entries == sent(found.subrange(at - size, at), q.attrs, false)
            &&& last.1.entries == sent(found.subrange(at, end), q.attrs, false)
        }),
{
}

/// The password and the one-time code of a simple bind: a code follows the last semicolon, where
/// the user has a second factor and what follows has the shape of a code.
pub open spec fn otp_shape(otp: Seq<char>) -> bool {
    has_prefix(otp, "ri_recovery_"@) || ((otp.len() == 6 || otp.len() == 8) && forall|i: int|
        0 <= i < otp.len() ==> ascii_digit(#[trigger] otp[i]))
}

/// The position of the last `c` in `s`, or -1.
pub open spec fn last_at(s: Seq<char>, c: char) -> int
    decreases s.len(),
{
    if s.len() == 0 {
        -1
    } else if s.last() == c {
        s.len() - 1
    } else {
        last_at(s.drop_last(), c)
    }
}

pub open spec fn split_otp(password: Seq<char>, mfa: bool) -> (Seq<char>, Option<Seq<char>>) {
    let at = last_at(password, ';');
    if mfa && at >= 0 && otp_shape(password.skip(at + 1)) {
        (password.take(at), Some(password.skip(at + 1)))
    } else {
        (password, None)
    }
}

fn has_otp_shape(otp: &str) -> (r: bool)
    ensures
        r == otp_shape(otp@),
{
    if starts_with(otp, "ri_recovery_") {
        return true;
    }
    let v = chars_of(otp);
    if v.len() != 6 && v.len() != 8 {
        return false;
    }
    let mut i: usize = 0;
    while i < v.len()
        invariant
            i <= v.len(),
            v@ == otp@,
            v.len() == 6 || v.len() == 8,
            !has_prefix(otp@, "ri_recovery_"@),
            forall|j: int| 0 <= j < i ==> ascii_digit(#[trigger] otp@[j]),
        decreases v.len() - i,
    {
        if !('0' <= v[i] && v[i] <= '9') {
            assert(!ascii_digit(otp@[i as int]));
            return false;
        }
        i = i + 1;
    }
    true
}

/// Splits a one-time code off a password.
pub fn password_and_otp(password: &str, mfa: bool) -> (r: (String, Option<String>))
    ensures
        r.0@ == split_otp(password@, mfa).0,
        opt_text(r.1) == split_otp(password@, mfa).1,
{
    let v = chars_of(password);
    let mut i: usize = v.len();
    assert(password@.take(i as int) =~= password@);
    while 0 < i && v[i - 1] != ';'
        invariant
            i <= v.len(),
            v@ == password@,
            last_at(password@, ';') == last_at(password@.take(i as int), ';'),
        decreases i,
    {
        proof {
            assert(password@.take(i as int).drop_last() =~= password@.take(i - 1));
        }
        i = i - 1;
    }
    if mfa && 0 < i {
        let otp = slice_of(&v, i, v.len());
        proof {
            assert(otp@ =~= password@.skip(i as int));
        }
        if has_otp_shape(otp.as_str()) {
            let bare = slice_of(&v, 0, i - 1);
            assert(bare@ =~= password@.take(i - 1));
            return (bare, Some(otp));
        }
    }
    (password.to_owned(), None)
}

/// Whom a bind is for.
pub enum BindName {
    /// The directory agent; its password is an agent credential.
    Agent,
    /// The user of this name, who has or has not a second factor.
    User(String, bool),
}

/// The users whose directory name this is.
pub open spec fn users_named(t: TxModel, s: crate::ldap_server::SettingsModel, dn: Seq<char>) -> Seq<
    Seq<char>,
> {
    in_order(t.users.dom()).filter(
        |k: Seq<char>| lower(user_name(s, t.users[k].username)) == lower(dn),
    )
}

/// Whom a bind is for, or why it is refused. `agent_ok` says whether the password is an agent
/// credential that may search this client's directory.
#[verifier::loop_isolation(false)]
pub fn bind_name(tx: &Tx, cid: &str, dn: &str, password: &str, agent_ok: bool, rules: &Rules) -> (r: Result<
    BindName,
    Error,
>)
    ensures
        match directory(tx@, cid@, rules@) {
            Err(f) => fails(r, f),
            Ok((_, s)) => if lower(dn@) == lower(agent_name(s)) {
                if !agent_ok {
                    fails(r, Failure::Refused("ldap.search"@))
                } else if !has_prefix(password@, "ri_agent_"@) {
                    fails(r, Failure::Forbidden)
                } else {
                    r matches Ok(BindName::Agent)
                }
            } else if users_named(tx@, s, dn@).len() != 1 {
                fails(r, Failure::Unauthorized)
            } else {
                let u = tx@.users[users_named(tx@, s, dn@)[0]];
                r matches Ok(BindName::User(name, mfa)) && name@ == u.username && mfa
                    == u.totp_secret is Some
            },
        },
{
    let (_, settings) = match crate::ldap_server::search::profile(tx, cid, rules) {
        Ok(p) => p,
        Err(e) => return Err(e),
    };
    let agent = settings.agent_dn();
    if same_ignoring_case(dn, agent.as_str()) {
        if !agent_ok {
            return Err(Error::Refused("ldap.search".to_owned()));
        }
        if !starts_with(password, "ri_agent_") {
            return Err(Error::Forbidden);
        }
        return Ok(BindName::Agent);
    }
    let keys = tx.users.keys();
    let ghost all = in_order(keys@);
    let ghost p = |k: Seq<char>| lower(user_name(settings@, tx@.users[k].username)) == lower(dn@);
    let n: usize = keys.len();
    let mut found: Vec<String> = Vec::new();
    let mut last: Option<(String, bool)> = None;
    let mut i: usize = 0;
    assert(texts(found@) =~= all.take(0).filter(p));
    while i < n
        invariant
            i <= n,
            texts(found@) == all.take(i as int).filter(p),
            found.len() > 0 ==> last is Some && (last->0).0@ == tx@.users[texts(found@).last()].username
                && (last->0).1 == tx@.users[texts(found@).last()].totp_secret is Some,
        decreases n - i,
    {
        let k = keys.at(i);
        let ghost was = texts(found@);
        proof {
            assert(all.take(i + 1) =~= all.take(i as int).push(k@));
            all.take(i as int).lemma_filter_push(k@, p);
        }
        if let Some(u) = tx.users.get(k.as_str()) {
            let name = settings.user_dn(u.username.as_str());
            if same_ignoring_case(name.as_str(), dn) {
                found.push(k.clone());
                last = Some((u.username.clone(), u.totp_secret.is_some()));
                assert(texts(found@) =~= was.push(k@));
            }
        }
        i = i + 1;
    }
    assert(all.take(i as int) =~= all);
    assert(texts(found@) == users_named(tx@, settings@, dn@));
    assert(texts(found@).len() == found.len());
    if found.len() != 1 {
        return Err(Error::Unauthorized);
    }
    match last {
        Some((name, mfa)) => Ok(BindName::User(name, mfa)),
        None => Err(Error::Unauthorized),
    }
}

/// A bind that failed: the credentials could not be checked, or they were refused.
pub open spec fn failed_bind(o: BindOutcome, f: Failure) -> bool {
    if status_of(f) >= 500 {
        o is Unavailable
    } else {
        o is Refused
    }
}

fn fail_bind(e: &Error) -> (o: BindOutcome)
    ensures
        failed_bind(o, e@),
{
    if e.status() >= 500 {
        BindOutcome::Unavailable
    } else {
        BindOutcome::Refused
    }
}

/// What the bind of a user comes to, and the session that is ended again. `login` is the session
/// token that the credentials gave; `refused` is why the client's policies do not accept that
/// session, if they do not.
pub fn finish_bind(login: Result<String, Error>, refused: &Option<Error>) -> (r: (
    BindOutcome,
    Option<String>,
))
    ensures
        match login {
            Err(e) => failed_bind(r.0, e@) && r.1 is None,
            Ok(token) => match *refused {
                None => (r.0 matches BindOutcome::Accepted(a) && a@ == AuthModel::User(token@)) && r.1 is None,
                Some(e) => failed_bind(r.0, e@) && opt_text(r.1) == Some(token@),
            },
        },
{
    match login {
        Err(e) => (fail_bind(&e), None),
        Ok(token) => match refused {
            None => (BindOutcome::Accepted(Auth::User(token)), None),
            Some(e) => (fail_bind(e), Some(token)),
        },
    }
}

/// The directory is read-only: a request to change or compare something is refused as nothing
/// that the server is willing to do, an unknown extension as one it does not have, and nothing else
/// happens.
pub proof fn changes_are_refused(
    c: ConnectionModel,
    id: i32,
    op: Operation,
    controls: Seq<ControlModel>,
)
    requires
        c.served < 1000,
        id > 0,
    ensures
        received(c, id, RequestModel::Unserved(op), controls).2 matches ActionModel::Refuse(o, code) && o
            == op && code == if op == Operation::Extended {
            ResultCode::UnavailableCriticalExtension
        } else {
            ResultCode::UnwillingToPerform
        },
        received(c, id, RequestModel::Unserved(op), controls).0.auth == c.auth,
        received(c, id, RequestModel::Unserved(op), controls).1 is None,
{
}

/// A search that asks for no page and is not cut short gives everything that was found.
pub proof fn whole_answers_hold_every_entry(
    c: ConnectionModel,
    found: Seq<EntryModel>,
    revision: u64,
    q: SearchModel,
    fingerprint: Seq<char>,
    cookie: Seq<u8>,
    now: u64,
)
    ensures
        ({
            let out = search_answer(c, found, revision, q, None, fingerprint, cookie, now);
            &&& out.0.page is None && out.0.auth == c.auth
            &&& out.1.page is None
            &&& q.sizelimit == 0 || found.len() <= q.sizelimit ==> out.1.code == ResultCode::Success
                && out.1.entries.len() == found.len()
            &&& q.sizelimit > 0 && found.len() > q.sizelimit ==> out.1.code
                == ResultCode::SizeLimitExceeded && out.1.entries.len() == q.sizelimit
            &&& forall|i: int|
                0 <= i < out.1.entries.len() ==> (#[trigger] out.1.entries[i]).dn == found[i].dn
        }),
{
}

/// A page begins where the one before it ended, for the connection that has its cookie, while nothing has
/// changed.
pub proof fn pages_begin_where_the_last_ended(
    p: PageModel,
    cookie: Seq<u8>,
    fingerprint: Seq<char>,
    revision: u64,
    now: u64,
)
    requires
        cookie.len() > 0,
    ensures
        page_start(Some(p), cookie, fingerprint, revision, now) is Some <==> {
            &&& p.cookie == cookie && p.fingerprint == fingerprint && p.revision == revision
            &&& p.expires_at > now
        },
        page_start(Some(p), cookie, fingerprint, revision, now) matches Some(n) ==> n == p.offset,
        page_start(None, cookie, fingerprint, revision, now) is None,
        page_start(Some(p), Seq::empty(), fingerprint, revision, now) == Some(0usize),
{
}

/// A bind over an encrypted connection is checked with the name and the password that came with it.
pub proof fn binds_are_checked(c: ConnectionModel, id: i32, dn: Seq<char>, password: Seq<char>)
    requires
        c.secured,
        c.served < 1000,
        id > 0,
        password.len() > 0,
        byte_count(password) <= 4096,
    ensures
        received(c, id, RequestModel::Bind { dn, simple: Some(password) }, Seq::empty()).2
            == (ActionModel::CheckBind { dn, password }),
        received(c, id, RequestModel::Bind { dn, simple: Some(Seq::empty()) }, Seq::empty()).2
            == ActionModel::BindResult(ResultCode::InvalidCredentials),
        received(c, id, RequestModel::Bind { dn, simple: None }, Seq::empty()).2
            == ActionModel::BindResult(ResultCode::InvalidCredentials),
{
}

/// A second factor is taken from the end of the password, behind its last semicolon, where the user has
/// one; otherwise the password is what was typed.
pub proof fn second_factors_follow_the_password(password: Seq<char>, otp: Seq<char>)
    requires
        otp.len() == 6,
        forall|i: int| 0 <= i < otp.len() ==> ascii_digit(#[trigger] otp[i]),
    ensures
        split_otp(password + seq![';'] + otp, true) == (password, Some(otp)),
        split_otp(password + seq![';'] + otp, false) == (
            password + seq![';'] + otp,
            None::<Seq<char>>,
        ),
        !password.contains(';') ==> split_otp(password, true) == (password, None::<Seq<char>>),
{
    let s = password + seq![';'] + otp;
    lemma_last_at(s, ';', password.len() as int);
    assert(s.take(password.len() as int) =~= password);
    assert(s.skip(password.len() as int + 1) =~= otp);
    if !password.contains(';') {
        lemma_no_last(password, ';');
    }
}

proof fn lemma_last_at(s: Seq<char>, c: char, n: int)
    requires
        0 <= n < s.len(),
        s[n] == c,
        forall|i: int| n < i < s.len() ==> #[trigger] s[i] != c,
    ensures
        last_at(s, c) == n,
    decreases s.len(),
{
    if n < s.len() - 1 {
        let d = s.drop_last();
        assert(s.last() == s[s.len() - 1]);
        assert forall|i: int| n < i < d.len() implies #[trigger] d[i] != c by {
            assert(d[i] == s[i]);
        }
        lemma_last_at(d, c, n);
    }
}

proof fn lemma_no_last(s: Seq<char>, c: char)
    requires
        !s.contains(c),
    ensures
        last_at(s, c) == -1,
    decreases s.len(),
{
    if s.len() > 0 {
        let d = s.drop_last();
        assert(s.contains(s[s.len() - 1]));
        if d.contains(c) {
            let i = d.index_of(c);
            assert(s[i] == c);
        }
        lemma_no_last(d, c);
    }
}

/// Each failure has its code in the protocol.
pub proof fn failures_have_their_code()
    ensures
        mapped_code(Failure::Unauthorized) == ResultCode::InsufficientAccessRights,
        mapped_code(Failure::Forbidden) == ResultCode::InsufficientAccessRights,
        mapped_code(Failure::Missing(Seq::empty())) == ResultCode::NoSuchObject,
        mapped_code(Failure::Conflict(Seq::empty())) == ResultCode::Busy,
        mapped_code(Failure::Bad(Seq::empty())) == ResultCode::InappropriateMatching,
        mapped_code(Failure::Internal(Seq::empty())) == ResultCode::Unavailable,
{
}

/// A second factor is six or eight digits, or a recovery code.
pub proof fn second_factors_have_a_shape(otp: Seq<char>)
    ensures
        otp_shape(otp) <==> has_prefix(otp, "ri_recovery_"@) || ((otp.len() == 6 || otp.len() == 8) && forall|i: int|
            0 <= i < otp.len() ==> '0' <= #[trigger] otp[i] <= '9'),
{
    if forall|i: int| 0 <= i < otp.len() ==> '0' <= #[trigger] otp[i] <= '9' {
        assert forall|i: int| 0 <= i < otp.len() implies ascii_digit(#[trigger] otp[i]) by {
            assert('0' <= otp[i] <= '9');
        }
    }
}

/// A page is asked for once: other controls that can be passed over do not count, and a second page or
/// a control that must be known is refused.
pub proof fn pages_are_asked_for_once(c: Seq<ControlModel>, size: i64, cookie: Seq<u8>)
    ensures
        page_asked(Seq::empty()) == Some(None::<(i64, Seq<u8>)>),
        page_asked(c.push(ControlModel::Ignorable)) == page_asked(c),
        page_asked(c) == Some(None::<(i64, Seq<u8>)>) ==> page_asked(c.push(ControlModel::Paged { size, cookie }))
            == Some(Some((size, cookie))),
        page_asked(c) matches Some(Some(_)) ==> page_asked(c.push(ControlModel::Paged { size, cookie })) is None,
        page_asked(c) is None ==> page_asked(c.push(ControlModel::Paged { size, cookie })) is None,
{
    assert(c.push(ControlModel::Ignorable).drop_last() =~= c);
    assert(c.push(ControlModel::Paged { size, cookie }).drop_last() =~= c);
}

/// An entry is shown under its name with the attributes that were asked for; all but the operational
/// one are shown where nothing was said, and only names where only types are wanted.
pub proof fn entries_show_what_was_asked(
    e: EntryModel,
    attrs: Seq<Seq<char>>,
    typesonly: bool,
    a: EntryAttributeModel,
)
    requires
        e.attributes.contains(a),
    ensures
        projected(e, attrs, typesonly).dn == e.dn,
        !typesonly && attrs.len() == 0 ==> (projected(e, attrs, typesonly).attributes.contains(a) <==> a.name
            != "entryUUID"@),
        !typesonly && attrs.contains(a.name) ==> projected(e, attrs, typesonly).attributes.contains(a),
        !typesonly && attrs.len() > 0 && !attrs.contains("*"@) && !attrs.contains("+"@) && (forall|i: int|
            0 <= i < attrs.len() ==> lower(#[trigger] attrs[i]) != lower(a.name)) ==> !projected(
            e,
            attrs,
            typesonly,
        ).attributes.contains(a),
        forall|i: int|
            typesonly && 0 <= i < projected(e, attrs, typesonly).attributes.len() ==> (
            #[trigger] projected(e, attrs, typesonly).attributes[i]).vals.len() == 0,
{
    let p = wanted(attrs);
    let kept = e.attributes.filter(p);
    if p(a) {
        e.attributes.lemma_filter_contains(p, e.attributes.index_of(a));
    }
    if kept.contains(a) {
        e.attributes.lemma_filter_pred(p, kept.index_of(a));
        assert(p(a));
    }
    if attrs.contains(a.name) {
        let i = attrs.index_of(a.name);
        assert(lower(attrs[i]) == lower(a.name));
        assert(p(a));
    }
    if attrs.len() == 0 {
        assert(p(a) <==> a.name != "entryUUID"@);
    }
}

} // verus!
