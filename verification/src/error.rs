//! The failures that the rules report to their callers.
use crate::provisioning::Oauth;
use crate::table::Row;
use vstd::prelude::*;
use vstd::string::*;

verus! {

/// Why a request was refused. The server maps each kind to its HTTP reply.
pub enum Error {
    /// A malformed or unacceptable request.
    Bad(String),
    /// A protocol error with its registered code.
    Oauth(String, String),
    /// Authentication is missing or no longer valid.
    Unauthorized,
    /// The caller may not do this.
    Forbidden,
    /// The named thing does not exist.
    Missing(String),
    /// The stored state does not allow this now.
    Conflict(String),
    /// The stored state contradicts itself.
    Internal(String),
    /// A reply with its own HTTP status and code.
    Reply(u16, String, String),
    /// The identifier rule rejects this name.
    Name(String),
    /// The rule of this name, which stands outside the library, refused.
    Refused(String),
}

/// What an [`Error`] says.
pub enum Failure {
    Bad(Seq<char>),
    Oauth(Seq<char>, Seq<char>),
    Unauthorized,
    Forbidden,
    Missing(Seq<char>),
    Conflict(Seq<char>),
    Internal(Seq<char>),
    Reply(u16, Seq<char>, Seq<char>),
    Name(Seq<char>),
    Refused(Seq<char>),
}

impl View for Error {
    type V = Failure;

    open spec fn view(&self) -> Failure {
        match *self {
            Error::Bad(m) => Failure::Bad(m@),
            Error::Oauth(c, m) => Failure::Oauth(c@, m@),
            Error::Unauthorized => Failure::Unauthorized,
            Error::Forbidden => Failure::Forbidden,
            Error::Missing(m) => Failure::Missing(m@),
            Error::Conflict(m) => Failure::Conflict(m@),
            Error::Internal(m) => Failure::Internal(m@),
            Error::Reply(s, c, m) => Failure::Reply(s, c@, m@),
            Error::Name(n) => Failure::Name(n@),
            Error::Refused(n) => Failure::Refused(n@),
        }
    }
}

/// `r` is the failure `f`.
pub open spec fn fails<T>(r: Result<T, Error>, f: Failure) -> bool {
    r is Err && r->Err_0@ == f
}

/// `r` reports success, or the failure of `s`, as `s` does.
pub open spec fn agrees(r: Result<(), Error>, s: Result<(), Failure>) -> bool {
    match s {
        Ok(_) => r is Ok,
        Err(f) => fails(r, f),
    }
}

/// The first failure of two checks made in a row.
pub open spec fn and_also(a: Result<(), Failure>, b: Result<(), Failure>) -> Result<(), Failure> {
    if a is Err {
        a
    } else {
        b
    }
}

/// The first failure of a check made on each item in turn.
pub open spec fn each<T>(s: Seq<T>, f: spec_fn(T) -> Result<(), Failure>) -> Result<(), Failure>
    decreases s.len(),
{
    if s.len() == 0 {
        Ok(())
    } else {
        and_also(each(s.drop_last(), f), f(s.last()))
    }
}

/// Once a check of the first items fails, the rest do not matter.
pub proof fn lemma_each_fails<T>(s: Seq<T>, f: spec_fn(T) -> Result<(), Failure>, n: int)
    requires
        0 <= n <= s.len(),
        each(s.take(n), f) is Err,
    ensures
        each(s, f) == each(s.take(n), f),
    decreases s.len() - n,
{
    if n < s.len() {
        assert(s.take(n + 1).drop_last() =~= s.take(n));
        lemma_each_fails(s, f, n + 1);
    } else {
        assert(s.take(n) =~= s);
    }
}

/// `r` is the failure of `s`, or a success whose value is that of `s`.
pub open spec fn agrees_with<T: View>(r: Result<T, Error>, s: Result<T::V, Failure>) -> bool {
    match s {
        Ok(v) => r is Ok && r->Ok_0@ == v,
        Err(f) => fails(r, f),
    }
}

impl Error {
    pub fn bad(message: &str) -> (e: Error)
        ensures
            e@ == Failure::Bad(message@),
    {
        Error::Bad(message.to_owned())
    }

    pub fn oauth(code: &str, message: &str) -> (e: Error)
        ensures
            e@ == Failure::Oauth(code@, message@),
    {
        Error::Oauth(code.to_owned(), message.to_owned())
    }

    pub fn missing(message: &str) -> (e: Error)
        ensures
            e@ == Failure::Missing(message@),
    {
        Error::Missing(message.to_owned())
    }

    pub fn conflict(message: &str) -> (e: Error)
        ensures
            e@ == Failure::Conflict(message@),
    {
        Error::Conflict(message.to_owned())
    }

    pub fn internal(message: &str) -> (e: Error)
        ensures
            e@ == Failure::Internal(message@),
    {
        Error::Internal(message.to_owned())
    }

    pub fn reply(status: u16, code: &str, message: &str) -> (e: Error)
        ensures
            e@ == Failure::Reply(status, code@, message@),
    {
        Error::Reply(status, code.to_owned(), message.to_owned())
    }
}

/// The HTTP status of a failure. A refusal by a rule outside the library is taken as forbidden.
pub open spec fn status_of(f: Failure) -> u16 {
    match f {
        Failure::Bad(_) => 400,
        Failure::Oauth(_, _) => 400,
        Failure::Unauthorized => 401,
        Failure::Forbidden => 403,
        Failure::Missing(_) => 404,
        Failure::Conflict(_) => 409,
        Failure::Internal(_) => 500,
        Failure::Reply(s, _, _) => s,
        Failure::Name(_) => 400,
        Failure::Refused(_) => 403,
    }
}

impl Error {
    pub fn status(&self) -> (r: u16)
        ensures
            r == status_of(self@),
    {
        match self {
            Error::Bad(_) => 400,
            Error::Oauth(_, _) => 400,
            Error::Unauthorized => 401,
            Error::Forbidden => 403,
            Error::Missing(_) => 404,
            Error::Conflict(_) => 409,
            Error::Internal(_) => 500,
            Error::Reply(s, _, _) => *s,
            Error::Name(_) => 400,
            Error::Refused(_) => 403,
        }
    }
}

/// The code of a failure. The kinds that name none themselves have the code `other`.
pub open spec fn code_of(f: Failure, other: Seq<char>) -> Seq<char> {
    match f {
        Failure::Oauth(code, _) => code,
        Failure::Reply(_, code, _) => code,
        Failure::Missing(_) => "not_found"@,
        Failure::Conflict(_) => "conflict"@,
        Failure::Forbidden => "access_denied"@,
        _ => other,
    }
}

impl Error {
    pub fn code(&self, other: &str) -> (r: String)
        ensures
            r@ == code_of(self@, other@),
    {
        match self {
            Error::Oauth(code, _) => code.clone(),
            Error::Reply(_, code, _) => code.clone(),
            Error::Missing(_) => "not_found".to_owned(),
            Error::Conflict(_) => "conflict".to_owned(),
            Error::Forbidden => "access_denied".to_owned(),
            _ => other.to_owned(),
        }
    }
}

/// The view of an optional error.
pub open spec fn opt_failure(e: Option<Error>) -> Option<Failure> {
    match e {
        Some(x) => Some(x@),
        None => None,
    }
}

/// A copy of an error.
pub fn copy_error(e: &Error) -> (r: Error)
    ensures
        r@ == e@,
{
    match e {
        Error::Bad(m) => Error::Bad(m.clone()),
        Error::Oauth(c, m) => Error::Oauth(c.clone(), m.clone()),
        Error::Unauthorized => Error::Unauthorized,
        Error::Forbidden => Error::Forbidden,
        Error::Missing(m) => Error::Missing(m.clone()),
        Error::Conflict(m) => Error::Conflict(m.clone()),
        Error::Internal(m) => Error::Internal(m.clone()),
        Error::Reply(s, c, m) => Error::Reply(*s, c.clone(), m.clone()),
        Error::Name(n) => Error::Name(n.clone()),
        Error::Refused(n) => Error::Refused(n.clone()),
    }
}

impl Row for Error {
    fn dup(&self) -> (r: Self) {
        copy_error(self)
    }
}

/// What the caller did wrong is answered with a status of the four hundreds, and what failed here
/// with five hundred; each kind has its own.
pub proof fn failures_have_their_status(m: Seq<char>, c: Seq<char>, s: u16)
    ensures
        status_of(Failure::Bad(m)) == 400,
        status_of(Failure::Oauth(c, m)) == 400,
        status_of(Failure::Name(m)) == 400,
        status_of(Failure::Unauthorized) == 401,
        status_of(Failure::Forbidden) == 403,
        status_of(Failure::Refused(m)) == 403,
        status_of(Failure::Missing(m)) == 404,
        status_of(Failure::Conflict(m)) == 409,
        status_of(Failure::Internal(m)) == 500,
        status_of(Failure::Reply(s, c, m)) == s,
        code_of(Failure::Oauth(c, m), m) == c,
        code_of(Failure::Reply(s, c, m), m) == c,
        code_of(Failure::Forbidden, m) == "access_denied"@,
        code_of(Failure::Missing(m), m) == "not_found"@,
        code_of(Failure::Conflict(m), m) == "conflict"@,
        code_of(Failure::Bad(m), c) == c,
{
}

} // verus!
