//! What the rules outside the library say of the values at hand.
use crate::error::{Error, Failure, agrees, and_also};
use crate::names::{Names, in_order};
use crate::table::{Row, Table};
use vstd::prelude::*;
use vstd::string::*;

verus! {

/// Verdicts of the identifier rule, the server address rule and the assurance catalogue on the
/// values that a check meets.
pub struct Rules {
    /// The names that the identifier rule rejects.
    pub bad_names: Names,
    /// The addresses that the server address rule accepts.
    pub server_urls: Names,
    /// The assurance values that the provider supports.
    pub acr_values: Names,
    /// The response modes that the provider supports.
    pub response_modes: Names,
    /// The further rules that refuse.
    pub refused: Names,
}

/// What a [`Rules`] holds.
pub struct RulesModel {
    pub bad_names: Set<Seq<char>>,
    pub server_urls: Set<Seq<char>>,
    pub acr_values: Set<Seq<char>>,
    pub response_modes: Set<Seq<char>>,
    pub refused: Set<Seq<char>>,
}

impl View for Rules {
    type V = RulesModel;

    open spec fn view(&self) -> RulesModel {
        RulesModel {
            bad_names: self.bad_names@,
            server_urls: self.server_urls@,
            acr_values: self.acr_values@,
            response_modes: self.response_modes@,
            refused: self.refused@,
        }
    }
}

impl Row for Rules {
    fn dup(&self) -> (r: Self) {
        Rules {
            bad_names: self.bad_names.copy(),
            server_urls: self.server_urls.copy(),
            acr_values: self.acr_values.copy(),
            response_modes: self.response_modes.copy(),
            refused: self.refused.copy(),
        }
    }
}

pub open spec fn name_check(rules: RulesModel, name: Seq<char>) -> Result<(), Failure> {
    if rules.bad_names.contains(name) {
        Err(Failure::Name(name))
    } else {
        Ok(())
    }
}

/// The identifier rule on each name in turn.
pub open spec fn names_check(rules: RulesModel, names: Seq<Seq<char>>) -> Result<(), Failure>
    decreases names.len(),
{
    if names.len() == 0 {
        Ok(())
    } else {
        and_also(names_check(rules, names.drop_last()), name_check(rules, names.last()))
    }
}

pub open spec fn rule_check(rules: RulesModel, rule: Seq<char>) -> Result<(), Failure> {
    if rules.refused.contains(rule) {
        Err(Failure::Refused(rule))
    } else {
        Ok(())
    }
}

pub proof fn lemma_names_check_fails(rules: RulesModel, names: Seq<Seq<char>>, n: int)
    requires
        0 <= n <= names.len(),
        names_check(rules, names.take(n)) is Err,
    ensures
        names_check(rules, names) == names_check(rules, names.take(n)),
    decreases names.len() - n,
{
    if n < names.len() {
        assert(names.take(n + 1).drop_last() =~= names.take(n));
        lemma_names_check_fails(rules, names, n + 1);
    } else {
        assert(names.take(n) =~= names);
    }
}

impl Rules {
    pub fn check_name(&self, name: &str) -> (r: Result<(), Error>)
        ensures
            agrees(r, name_check(self@, name@)),
    {
        if self.bad_names.contains(name) {
            Err(Error::Name(name.to_owned()))
        } else {
            Ok(())
        }
    }

    pub fn check_names(&self, names: &Names) -> (r: Result<(), Error>)
        ensures
            agrees(r, names_check(self@, in_order(names@))),
    {
        let ghost all = in_order(names@);
        let mut i: usize = 0;
        let n: usize = names.len();
        while i < n
            invariant
                i <= n,
                n == all.len(),
                all == in_order(names@),
                names_check(self@, all.take(i as int)) is Ok,
            decreases n - i,
        {
            proof {
                assert(all.take(i + 1).drop_last() =~= all.take(i as int));
            }
            if let Err(e) = self.check_name(names.at(i).as_str()) {
                proof {
                    lemma_names_check_fails(self@, all, i + 1);
                }
                return Err(e);
            }
            i = i + 1;
        }
        assert(all.take(n as int) =~= all);
        Ok(())
    }

    pub fn check_rule(&self, rule: &str) -> (r: Result<(), Error>)
        ensures
            agrees(r, rule_check(self@, rule@)),
    {
        if self.refused.contains(rule) {
            Err(Error::Refused(rule.to_owned()))
        } else {
            Ok(())
        }
    }
}

/// The message of a refusal. Rules outside the library have theirs in `messages`.
pub open spec fn told(messages: Map<Seq<char>, Seq<char>>, f: Failure) -> Seq<char> {
    match f {
        Failure::Bad(m) => m,
        Failure::Oauth(_, m) => m,
        Failure::Missing(m) => m,
        Failure::Conflict(m) => m,
        Failure::Internal(m) => m,
        Failure::Reply(_, _, m) => m,
        Failure::Unauthorized => message_in(messages, "unauthorized"@),
        Failure::Forbidden => message_in(messages, "forbidden"@),
        Failure::Name(n) => message_in(messages, n),
        Failure::Refused(n) => message_in(messages, n),
    }
}

pub open spec fn message_in(messages: Map<Seq<char>, Seq<char>>, k: Seq<char>) -> Seq<char> {
    if messages.dom().contains(k) {
        messages[k]
    } else {
        k
    }
}

fn find_message(messages: &Table<String>, k: &str) -> (r: String)
    ensures
        r@ == message_in(messages@, k@),
{
    match messages.get(k) {
        Some(m) => m.clone(),
        None => k.to_owned(),
    }
}

pub fn tell(messages: &Table<String>, e: &Error) -> (r: String)
    ensures
        r@ == told(messages@, e@),
{
    match e {
        Error::Bad(m) => m.clone(),
        Error::Oauth(_, m) => m.clone(),
        Error::Missing(m) => m.clone(),
        Error::Conflict(m) => m.clone(),
        Error::Internal(m) => m.clone(),
        Error::Reply(_, _, m) => m.clone(),
        Error::Unauthorized => find_message(messages, "unauthorized"),
        Error::Forbidden => find_message(messages, "forbidden"),
        Error::Name(n) => find_message(messages, n.as_str()),
        Error::Refused(n) => find_message(messages, n.as_str()),
    }
}

/// Names are accepted together if each of them is accepted; the first bad one is the one that is told.
pub proof fn names_are_accepted_one_by_one(rules: RulesModel, names: Seq<Seq<char>>)
    ensures
        names_check(rules, names) is Ok <==> forall|i: int|
            0 <= i < names.len() ==> !rules.bad_names.contains(#[trigger] names[i]),
        forall|n: int|
            0 <= n < names.len() && rules.bad_names.contains(#[trigger] names[n]) && (forall|i: int|
                0 <= i < n ==> !rules.bad_names.contains(#[trigger] names[i])) ==> names_check(rules, names)
                == Err::<(), Failure>(Failure::Name(names[n])),
    decreases names.len(),
{
    if names.len() > 0 {
        let w = names.drop_last();
        names_are_accepted_one_by_one(rules, w);
        assert forall|i: int| 0 <= i < w.len() implies w[i] == #[trigger] names[i] by {}
        if names_check(rules, names) is Ok {
            assert forall|i: int| 0 <= i < names.len() implies !rules.bad_names.contains(#[trigger] names[i]) by {
                if i < w.len() {
                    assert(!rules.bad_names.contains(w[i]));
                }
            }
        }
        if forall|i: int| 0 <= i < names.len() ==> !rules.bad_names.contains(#[trigger] names[i]) {
            assert forall|i: int| 0 <= i < w.len() implies !rules.bad_names.contains(#[trigger] w[i]) by {
                assert(!rules.bad_names.contains(names[i]));
            }
            assert(!rules.bad_names.contains(names[names.len() - 1]));
        }
        assert forall|n: int|
            0 <= n < names.len() && rules.bad_names.contains(#[trigger] names[n]) && (forall|i: int|
                0 <= i < n ==> !rules.bad_names.contains(#[trigger] names[i])) implies names_check(rules, names)
            == Err::<(), Failure>(Failure::Name(names[n])) by {
            if n < w.len() {
                assert(rules.bad_names.contains(w[n]));
                assert forall|i: int| 0 <= i < n implies !rules.bad_names.contains(#[trigger] w[i]) by {
                    assert(!rules.bad_names.contains(names[i]));
                }
            } else {
                assert forall|i: int| 0 <= i < w.len() implies !rules.bad_names.contains(#[trigger] w[i]) by {
                    assert(!rules.bad_names.contains(names[i]));
                }
            }
        }
    }
}

/// A failure is told in its own words, or in those that are kept for it.
pub proof fn failures_are_told_in_their_words(messages: Map<Seq<char>, Seq<char>>, m: Seq<char>, c: Seq<char>)
    ensures
        told(messages, Failure::Bad(m)) == m,
        told(messages, Failure::Oauth(c, m)) == m,
        told(messages, Failure::Conflict(m)) == m,
        told(messages, Failure::Missing(m)) == m,
        messages.dom().contains(m) ==> told(messages, Failure::Name(m)) == messages[m]
            && told(messages, Failure::Refused(m)) == messages[m],
        !messages.dom().contains(m) ==> told(messages, Failure::Name(m)) == m && told(
            messages,
            Failure::Refused(m),
        ) == m,
{
}

} // verus!
