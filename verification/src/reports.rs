//! Review of the audit trail, and reports as CSV.
use crate::engine::{Core, extended};
use crate::error::{Error, Failure, agrees, agrees_with, and_also, fails};
use crate::json::{Json, JsonModel, Member, lemma_members_of, member, members_of, same_json, text};
use crate::model::{Group, GroupModel, User, UserModel};
use crate::names::{Names, finite_sets_are_listed, in_order, lemma_lt_irreflexive};
use crate::store::Tx;
use crate::table::{Row, Table, views};
use crate::text::{before, byte_count, byte_len, chars_of, concat, contains, contains_text, copy_opt, decimal, decimal_text, ends_with, has_control, has_prefix, has_suffix, joined, opt_text, same, same_opt, slice_of, some_control, starts_with, string_of, text_list, text_lt, texts};
use vstd::prelude::*;
use vstd::string::*;

verus! {

pub const EXAMINE_CAP: usize = 10000;

pub const GROUP_CAP: usize = 10000;

pub const CURSOR_TTL: u64 = 3600;

pub struct AuditReviewQuery {
    pub action: Option<String>,
    pub actor: Option<String>,
    pub target: Option<String>,
    pub run_id: Option<String>,
    pub from: Option<u64>,
    pub to: Option<u64>,
    pub limit: Option<usize>,
    pub cursor: Option<String>,
}

/// What a [`AuditReviewQuery`] holds.
pub struct AuditReviewQueryModel {
    pub action: Option<Seq<char>>,
    pub actor: Option<Seq<char>>,
    pub target: Option<Seq<char>>,
    pub run_id: Option<Seq<char>>,
    pub from: Option<u64>,
    pub to: Option<u64>,
    pub limit: Option<usize>,
    pub cursor: Option<Seq<char>>,
}

impl View for AuditReviewQuery {
    type V = AuditReviewQueryModel;

    open spec fn view(&self) -> AuditReviewQueryModel {
        AuditReviewQueryModel {
            action: crate::text::opt_text(self.action),
            actor: crate::text::opt_text(self.actor),
            target: crate::text::opt_text(self.target),
            run_id: crate::text::opt_text(self.run_id),
            from: self.from,
            to: self.to,
            limit: self.limit,
            cursor: crate::text::opt_text(self.cursor),
        }
    }
}

impl Row for AuditReviewQuery {
    fn dup(&self) -> (r: Self) {
        AuditReviewQuery {
            action: crate::text::copy_opt(&self.action),
            actor: crate::text::copy_opt(&self.actor),
            target: crate::text::copy_opt(&self.target),
            run_id: crate::text::copy_opt(&self.run_id),
            from: self.from,
            to: self.to,
            limit: self.limit,
            cursor: crate::text::copy_opt(&self.cursor),
        }
    }
}

pub struct UserReportQuery {
    /// A part of the username.
    pub filter: Option<String>,
    pub limit: Option<usize>,
    pub cursor: Option<String>,
}

/// What a [`UserReportQuery`] holds.
pub struct UserReportQueryModel {
    pub filter: Option<Seq<char>>,
    pub limit: Option<usize>,
    pub cursor: Option<Seq<char>>,
}

impl View for UserReportQuery {
    type V = UserReportQueryModel;

    open spec fn view(&self) -> UserReportQueryModel {
        UserReportQueryModel {
            filter: crate::text::opt_text(self.filter),
            limit: self.limit,
            cursor: crate::text::opt_text(self.cursor),
        }
    }
}

impl Row for UserReportQuery {
    fn dup(&self) -> (r: Self) {
        UserReportQuery {
            filter: crate::text::copy_opt(&self.filter),
            limit: self.limit,
            cursor: crate::text::copy_opt(&self.cursor),
        }
    }
}

/// A page of the audit trail, and after which event the next one continues.
pub struct AuditReview {
    pub events: Vec<AuditEvent>,
    pub next_after: Option<String>,
    pub limit: usize,
}

/// What a [`AuditReview`] holds.
pub struct AuditReviewModel {
    pub events: Seq<AuditEventModel>,
    pub next_after: Option<Seq<char>>,
    pub limit: usize,
}

impl View for AuditReview {
    type V = AuditReviewModel;

    open spec fn view(&self) -> AuditReviewModel {
        AuditReviewModel {
            events: crate::table::views(self.events@),
            next_after: crate::text::opt_text(self.next_after),
            limit: self.limit,
        }
    }
}

impl Row for AuditReview {
    fn dup(&self) -> (r: Self) {
        AuditReview {
            events: crate::table::dup_list(&self.events),
            next_after: crate::text::copy_opt(&self.next_after),
            limit: self.limit,
        }
    }
}

/// A report, and where the next one continues.
pub struct ReportPage {
    pub body: String,
    pub next_after: Option<String>,
    pub rows: usize,
}

/// What a [`ReportPage`] holds.
pub struct ReportPageModel {
    pub body: Seq<char>,
    pub next_after: Option<Seq<char>>,
    pub rows: usize,
}

impl View for ReportPage {
    type V = ReportPageModel;

    open spec fn view(&self) -> ReportPageModel {
        ReportPageModel {
            body: self.body@,
            next_after: crate::text::opt_text(self.next_after),
            rows: self.rows,
        }
    }
}

impl Row for ReportPage {
    fn dup(&self) -> (r: Self) {
        ReportPage {
            body: self.body.clone(),
            next_after: crate::text::copy_opt(&self.next_after),
            rows: self.rows,
        }
    }
}

/// An event of the audit trail.
pub struct AuditEvent {
    pub id: String,
    pub at: u64,
    pub actor: String,
    pub action: String,
    pub target: String,
    pub run_id: Option<String>,
    pub request_id: Option<String>,
}

/// What a [`AuditEvent`] holds.
pub struct AuditEventModel {
    pub id: Seq<char>,
    pub at: u64,
    pub actor: Seq<char>,
    pub action: Seq<char>,
    pub target: Seq<char>,
    pub run_id: Option<Seq<char>>,
    pub request_id: Option<Seq<char>>,
}

impl View for AuditEvent {
    type V = AuditEventModel;

    open spec fn view(&self) -> AuditEventModel {
        AuditEventModel {
            id: self.id@,
            at: self.at,
            actor: self.actor@,
            action: self.action@,
            target: self.target@,
            run_id: crate::text::opt_text(self.run_id),
            request_id: crate::text::opt_text(self.request_id),
        }
    }
}

impl Row for AuditEvent {
    fn dup(&self) -> (r: Self) {
        AuditEvent {
            id: self.id.clone(),
            at: self.at,
            actor: self.actor.clone(),
            action: self.action.clone(),
            target: self.target.clone(),
            run_id: crate::text::copy_opt(&self.run_id),
            request_id: crate::text::copy_opt(&self.request_id),
        }
    }
}

pub struct AuditFilter {
    pub action: Option<String>,
    pub actor: Option<String>,
    pub target: Option<String>,
    pub run_id: Option<String>,
    pub from: Option<u64>,
    pub to: Option<u64>,
}

/// What a [`AuditFilter`] holds.
pub struct AuditFilterModel {
    pub action: Option<Seq<char>>,
    pub actor: Option<Seq<char>>,
    pub target: Option<Seq<char>>,
    pub run_id: Option<Seq<char>>,
    pub from: Option<u64>,
    pub to: Option<u64>,
}

impl View for AuditFilter {
    type V = AuditFilterModel;

    open spec fn view(&self) -> AuditFilterModel {
        AuditFilterModel {
            action: crate::text::opt_text(self.action),
            actor: crate::text::opt_text(self.actor),
            target: crate::text::opt_text(self.target),
            run_id: crate::text::opt_text(self.run_id),
            from: self.from,
            to: self.to,
        }
    }
}

impl Row for AuditFilter {
    fn dup(&self) -> (r: Self) {
        AuditFilter {
            action: crate::text::copy_opt(&self.action),
            actor: crate::text::copy_opt(&self.actor),
            target: crate::text::copy_opt(&self.target),
            run_id: crate::text::copy_opt(&self.run_id),
            from: self.from,
            to: self.to,
        }
    }
}

/// A filter text is unset, or bounded and without control characters.
pub open spec fn filter_text_check(v: Option<Seq<char>>, max: nat) -> Result<(), Failure> {
    match v {
        None => Ok(()),
        Some(s) => if s.len() == 0 || byte_count(s) > max || some_control(s) {
            Err(Failure::Bad("Invalid report filter"@))
        } else {
            Ok(())
        },
    }
}

pub fn bounded_text(v: &Option<String>, max: usize) -> (r: Result<(), Error>)
    ensures
        agrees(r, filter_text_check(opt_text(*v), max as nat)),
{
    match v {
        None => Ok(()),
        Some(s) => {
            if s.as_str().is_empty() || byte_len(s.as_str()) > max || has_control(s.as_str()) {
                Err(Error::bad("Invalid report filter"))
            } else {
                Ok(())
            }
        },
    }
}

/// Nothing but stars and dots.
pub open spec fn only_wildcards(s: Seq<char>) -> bool {
    forall|i: int| 0 <= i < s.len() ==> #[trigger] s[i] == '*' || s[i] == '.'
}

fn is_only_wildcards(s: &str) -> (r: bool)
    ensures
        r == only_wildcards(s@),
{
    let v = chars_of(s);
    let mut i: usize = 0;
    while i < v.len()
        invariant
            i <= v.len(),
            v@ == s@,
            forall|j: int| 0 <= j < i ==> #[trigger] s@[j] == '*' || s@[j] == '.',
        decreases v.len() - i,
    {
        if v[i] != '*' && v[i] != '.' {
            assert(s@[i as int] != '*' && s@[i as int] != '.');
            return false;
        }
        i = i + 1;
    }
    true
}

/// The filter that a query asks for.
pub open spec fn filter_of(q: AuditReviewQueryModel) -> Result<AuditFilterModel, Failure> {
    match filter_text_check(q.action, 256) {
        Err(f) => Err(f),
        Ok(_) => if q.action is Some && only_wildcards(q.action->0) {
            Err(Failure::Bad("Invalid report filter"@))
        } else {
            match and_also(
                filter_text_check(q.actor, 256),
                and_also(filter_text_check(q.target, 512), filter_text_check(q.run_id, 256)),
            ) {
                Err(f) => Err(f),
                Ok(_) => if q.from is Some && q.to is Some && q.from->0 > q.to->0 {
                    Err(Failure::Bad("Invalid report time range"@))
                } else {
                    Ok(
                        AuditFilterModel {
                            action: q.action,
                            actor: q.actor,
                            target: q.target,
                            run_id: q.run_id,
                            from: q.from,
                            to: q.to,
                        },
                    )
                },
            }
        },
    }
}

/// An action matches itself and the actions below it; a filter that ends with a dot or a star is a
/// plain prefix.
pub open spec fn action_fits(action: Seq<char>, filter: Seq<char>) -> bool {
    if has_suffix(filter, "*"@) {
        filter.len() > 1 && has_prefix(action, filter.drop_last())
    } else if has_suffix(filter, "."@) {
        filter.len() > 1 && has_prefix(action, filter)
    } else {
        action == filter || has_prefix(action, filter + "."@)
    }
}

pub fn action_matches(action: &str, filter: &str) -> (r: bool)
    ensures
        r == action_fits(action@, filter@),
{
    proof {
        reveal_strlit("*");
        reveal_strlit(".");
    }
    let v = chars_of(filter);
    if ends_with(filter, "*") {
        let prefix = slice_of(&v, 0, v.len() - 1);
        assert(prefix@ =~= filter@.drop_last());
        return v.len() > 1 && starts_with(action, prefix.as_str());
    }
    if ends_with(filter, ".") {
        return v.len() > 1 && starts_with(action, filter);
    }
    let below = concat(filter, ".");
    same(action, filter) || starts_with(action, below.as_str())
}

/// The event passes the filter.
pub open spec fn event_fits(f: AuditFilterModel, e: AuditEventModel) -> bool {
    &&& f.action matches Some(a) ==> action_fits(e.action, a)
    &&& f.actor matches Some(a) ==> e.actor == a
    &&& f.target matches Some(a) ==> e.target == a
    &&& f.run_id is Some ==> e.run_id == f.run_id
    &&& f.from matches Some(t) ==> e.at >= t
    &&& f.to matches Some(t) ==> e.at <= t
}

impl AuditFilter {
    pub fn parse(query: &AuditReviewQuery) -> (r: Result<AuditFilter, Error>)
        ensures
            agrees_with(r, filter_of(query@)),
    {
        if let Err(e) = bounded_text(&query.action, 256) {
            return Err(e);
        }
        if let Some(a) = &query.action {
            if is_only_wildcards(a.as_str()) {
                return Err(Error::bad("Invalid report filter"));
            }
        }
        if let Err(e) = bounded_text(&query.actor, 256) {
            return Err(e);
        }
        if let Err(e) = bounded_text(&query.target, 512) {
            return Err(e);
        }
        if let Err(e) = bounded_text(&query.run_id, 256) {
            return Err(e);
        }
        if let (Some(a), Some(b)) = (query.from, query.to) {
            if a > b {
                return Err(Error::bad("Invalid report time range"));
            }
        }
        Ok(
            AuditFilter {
                action: copy_opt(&query.action),
                actor: copy_opt(&query.actor),
                target: copy_opt(&query.target),
                run_id: copy_opt(&query.run_id),
                from: query.from,
                to: query.to,
            },
        )
    }

    pub fn matches(&self, event: &AuditEvent) -> (r: bool)
        ensures
            r == event_fits(self@, event@),
    {
        if let Some(a) = &self.action {
            if !action_matches(event.action.as_str(), a.as_str()) {
                return false;
            }
        }
        if let Some(a) = &self.actor {
            if !same(event.actor.as_str(), a.as_str()) {
                return false;
            }
        }
        if let Some(a) = &self.target {
            if !same(event.target.as_str(), a.as_str()) {
                return false;
            }
        }
        if self.run_id.is_some() && !same_opt(&event.run_id, &self.run_id) {
            return false;
        }
        if let Some(t) = self.from {
            if event.at < t {
                return false;
            }
        }
        if let Some(t) = self.to {
            if event.at > t {
                return false;
            }
        }
        true
    }
}

pub open spec fn limit_of(requested: Option<usize>, default: usize, max: usize) -> usize {
    let n = match requested {
        Some(n) => n,
        None => default,
    };
    if n < 1 {
        1
    } else if n > max {
        max
    } else {
        n
    }
}

pub fn bound_limit(requested: Option<usize>, default: usize, max: usize) -> (r: usize)
    requires
        1 <= max,
    ensures
        r == limit_of(requested, default, max),
        1 <= r <= max,
{
    let n = match requested {
        Some(n) => n,
        None => default,
    };
    if n < 1 {
        1
    } else if n > max {
        max
    } else {
        n
    }
}

/// How many rows are examined from `k` on: until the page is full, the cap is reached or none is
/// left.
pub open spec fn examined(flags: Seq<bool>, k: nat, found: nat, limit: nat) -> nat
    decreases flags.len() - k,
{
    if k >= flags.len() {
        flags.len()
    } else {
        let f = if flags[k as int] {
            found + 1
        } else {
            found
        };
        if f == limit || k + 1 >= EXAMINE_CAP {
            k + 1
        } else {
            examined(flags, k + 1, f, limit)
        }
    }
}

/// How many of the first `k` rows are accepted.
pub open spec fn accepted_count(flags: Seq<bool>, k: nat) -> nat
    decreases k,
{
    if k == 0 {
        0
    } else {
        accepted_count(flags, (k - 1) as nat) + if flags[k - 1] {
            1nat
        } else {
            0nat
        }
    }
}

/// Whether the next page has to look further: rows are read 256 at a time, and a full last batch
/// does not tell that it was the last.
pub open spec fn continues_after(flags: Seq<bool>, limit: nat) -> bool {
    let end = examined(flags, 0, 0, limit);
    let full = accepted_count(flags, end) == limit || end >= EXAMINE_CAP;
    end > 0 && !(end == flags.len() && (!full || flags.len() % 256 != 0))
}

/// Examines rows of which `flags` tells whether each is accepted: how many were examined, and
/// whether the next page continues after them.
#[verifier::loop_isolation(false)]
pub fn scan_flags(flags: &Vec<bool>, limit: usize) -> (r: (usize, bool))
    requires
        limit >= 1,
    ensures
        r.0 == examined(flags@, 0, 0, limit as nat),
        r.1 == continues_after(flags@, limit as nat),
        r.0 <= flags.len(),
{
    let mut k: usize = 0;
    let mut found: usize = 0;
    let mut stop = false;
    while k < flags.len() && !stop
        invariant
            k <= flags.len(),
            found <= k,
            found == accepted_count(flags@, k as nat),
            !stop ==> examined(flags@, 0, 0, limit as nat) == examined(
                flags@,
                k as nat,
                found as nat,
                limit as nat,
            ) && found < limit && k < EXAMINE_CAP,
            stop ==> examined(flags@, 0, 0, limit as nat) == k && (found == limit || k
                >= EXAMINE_CAP),
        decreases flags.len() - k,
    {
        if flags[k] {
            found = found + 1;
        }
        k = k + 1;
        if found == limit || k >= EXAMINE_CAP {
            stop = true;
        }
    }
    let more = k > 0 && !(k == flags.len() && (!stop || flags.len() % 256 != 0));
    (k, more)
}

/// The text that a spreadsheet would take for a formula is marked.
pub open spec fn formula_start(c: char) -> bool {
    c == '=' || c == '+' || c == '-' || c == '@' || c == '\t' || c == '\r'
}

pub open spec fn marked(s: Seq<char>) -> Seq<char> {
    if s.len() > 0 && formula_start(s[0]) {
        seq!['\''] + s
    } else {
        s
    }
}

/// Every quote doubled.
pub open spec fn doubled(s: Seq<char>) -> Seq<char>
    decreases s.len(),
{
    if s.len() == 0 {
        Seq::empty()
    } else if s.last() == '"' {
        doubled(s.drop_last()).push('"').push('"')
    } else {
        doubled(s.drop_last()).push(s.last())
    }
}

/// A text that has to be quoted.
pub open spec fn needs_quotes(s: Seq<char>) -> bool {
    exists|i: int|
        0 <= i < s.len() && (#[trigger] s[i] == ',' || s[i] == '"' || s[i] == '\n' || s[i] == '\r')
}

pub open spec fn cell_of(s: Seq<char>) -> Seq<char> {
    let t = marked(s);
    if needs_quotes(t) {
        seq!['"'] + doubled(t) + seq!['"']
    } else {
        t
    }
}

fn has_special(v: &Vec<char>) -> (r: bool)
    ensures
        r == needs_quotes(v@),
{
    let mut i: usize = 0;
    while i < v.len()
        invariant
            i <= v.len(),
            forall|j: int|
                0 <= j < i ==> !(#[trigger] v@[j] == ',' || v@[j] == '"' || v@[j] == '\n' || v@[j]
                    == '\r'),
        decreases v.len() - i,
    {
        if v[i] == ',' || v[i] == '"' || v[i] == '\n' || v[i] == '\r' {
            assert(v@[i as int] == ',' || v@[i as int] == '"' || v@[i as int] == '\n' || v@[i as int]
                == '\r');
            return true;
        }
        i = i + 1;
    }
    false
}

/// A cell of a CSV document.
#[verifier::loop_isolation(false)]
pub fn csv_cell(value: &str) -> (r: String)
    ensures
        r@ == cell_of(value@),
{
    let raw = chars_of(value);
    let mut t: Vec<char> = Vec::new();
    if raw.len() > 0 && (raw[0] == '=' || raw[0] == '+' || raw[0] == '-' || raw[0] == '@' || raw[0]
        == '\t' || raw[0] == '\r') {
        t.push('\'');
    }
    let ghost head = t@;
    let mut i: usize = 0;
    assert(head + raw@.take(0) =~= head);
    while i < raw.len()
        invariant
            i <= raw.len(),
            t@ == head + raw@.take(i as int),
        decreases raw.len() - i,
    {
        t.push(raw[i]);
        assert(head + raw@.take(i + 1) =~= (head + raw@.take(i as int)).push(raw@[i as int]));
        i = i + 1;
    }
    assert(raw@.take(i as int) =~= raw@);
    assert(t@ =~= marked(value@));
    if !has_special(&t) {
        return string_of(&t);
    }
    let mut out: Vec<char> = Vec::new();
    out.push('"');
    let mut k: usize = 0;
    assert(t@.take(0) =~= Seq::<char>::empty());
    assert(out@ =~= seq!['"'] + doubled(t@.take(0)));
    while k < t.len()
        invariant
            k <= t.len(),
            out@ == seq!['"'] + doubled(t@.take(k as int)),
        decreases t.len() - k,
    {
        let ghost was = doubled(t@.take(k as int));
        proof {
            assert(t@.take(k + 1).drop_last() =~= t@.take(k as int));
            assert(t@.take(k + 1).last() == t@[k as int]);
        }
        if t[k] == '"' {
            out.push('"');
            out.push('"');
            assert(out@ =~= seq!['"'] + was.push('"').push('"'));
        } else {
            out.push(t[k]);
            assert(out@ =~= seq!['"'] + was.push(t@[k as int]));
        }
        k = k + 1;
    }
    assert(t@.take(k as int) =~= t@);
    out.push('"');
    assert(out@ =~= seq!['"'] + doubled(t@) + seq!['"']);
    string_of(&out)
}

/// No cell is taken for a formula.
pub proof fn cells_are_no_formulas(s: Seq<char>)
    ensures
        cell_of(s).len() > 0 ==> !formula_start(cell_of(s)[0]),
{
}

/// A quoted text, read back: doubled quotes are single again.
pub open spec fn undoubled(s: Seq<char>) -> Seq<char>
    decreases s.len(),
{
    if s.len() == 0 {
        Seq::empty()
    } else if s.len() >= 2 && s.last() == '"' && s[s.len() - 2] == '"' {
        undoubled(s.drop_last().drop_last()).push('"')
    } else {
        undoubled(s.drop_last()).push(s.last())
    }
}

/// What a reader of CSV makes of a cell.
pub open spec fn cell_read(c: Seq<char>) -> Seq<char> {
    if c.len() >= 2 && c[0] == '"' && c.last() == '"' {
        undoubled(c.subrange(1, c.len() - 1))
    } else {
        c
    }
}

proof fn lemma_doubled_back(s: Seq<char>)
    ensures
        undoubled(doubled(s)) == s,
    decreases s.len(),
{
    if s.len() > 0 {
        let rest = s.drop_last();
        lemma_doubled_back(rest);
        let d = doubled(s);
        if s.last() == '"' {
            assert(d.drop_last().drop_last() =~= doubled(rest));
            assert(rest.push('"') =~= s);
        } else {
            assert(d.drop_last() =~= doubled(rest));
            assert(rest.push(s.last()) =~= s);
        }
    }
}

/// A cell is read back as the text that was written, with its mark where it has one.
pub proof fn cells_read_back(s: Seq<char>)
    ensures
        cell_read(cell_of(s)) == marked(s),
{
    let t = marked(s);
    let c = cell_of(s);
    if needs_quotes(t) {
        assert(c.subrange(1, c.len() - 1) =~= doubled(t));
        lemma_doubled_back(t);
    } else if c.len() >= 2 && c[0] == '"' {
        assert(t[0] == '"');
        assert(needs_quotes(t));
    }
}

/// The cells of a row between commas.
pub open spec fn row_text(cells: Seq<Seq<char>>) -> Seq<char>
    decreases cells.len(),
{
    if cells.len() == 0 {
        Seq::empty()
    } else if cells.len() == 1 {
        cell_of(cells[0])
    } else {
        row_text(cells.drop_last()).push(',') + cell_of(cells.last())
    }
}

/// The rows of a document, each on its line.
pub open spec fn rows_text(rows: Seq<Seq<Seq<char>>>) -> Seq<char>
    decreases rows.len(),
{
    if rows.len() == 0 {
        Seq::empty()
    } else {
        rows_text(rows.drop_last()) + row_text(rows.last()).push('\n')
    }
}

/// The views of a table of texts.
pub open spec fn grid(v: Seq<Vec<String>>) -> Seq<Seq<Seq<char>>> {
    v.map_values(|r: Vec<String>| texts(r@))
}

#[verifier::loop_isolation(false)]
fn write_row(cells: &Vec<String>) -> (r: String)
    ensures
        r@ == row_text(texts(cells@)).push('\n'),
{
    let ghost all = texts(cells@);
    let mut out = String::new();
    let mut i: usize = 0;
    assert(all.take(0) =~= Seq::<Seq<char>>::empty());
    assert(out@ =~= row_text(all.take(0)));
    while i < cells.len()
        invariant
            i <= cells.len(),
            out@ == row_text(all.take(i as int)),
        decreases cells.len() - i,
    {
        proof {
            assert(all.take(i + 1).drop_last() =~= all.take(i as int));
            assert(all.take(i + 1).last() == cells[i as int]@);
        }
        let ghost was = out@;
        if i > 0 {
            out.push(',');
        }
        let c = csv_cell(cells[i].as_str());
        out.append(c.as_str());
        proof {
            if i == 0 {
                assert(was =~= Seq::<char>::empty());
                assert(out@ =~= cell_of(all.take(1)[0]));
            }
        }
        i = i + 1;
    }
    assert(all.take(i as int) =~= all);
    out.push('\n');
    out
}

/// A CSV document with a header.
#[verifier::loop_isolation(false)]
pub fn csv_document(header: &Vec<String>, rows: &Vec<Vec<String>>) -> (r: String)
    ensures
        r@ == row_text(texts(header@)).push('\n') + rows_text(grid(rows@)),
{
    let mut out = write_row(header);
    let ghost head = out@;
    let ghost all = grid(rows@);
    let mut i: usize = 0;
    assert(all.take(0) =~= Seq::<Seq<Seq<char>>>::empty());
    assert(head + rows_text(all.take(0)) =~= head);
    while i < rows.len()
        invariant
            i <= rows.len(),
            out@ == head + rows_text(all.take(i as int)),
        decreases rows.len() - i,
    {
        proof {
            assert(all.take(i + 1).drop_last() =~= all.take(i as int));
            assert(all.take(i + 1).last() == texts(rows[i as int]@));
        }
        let ghost was = rows_text(all.take(i as int));
        let line = write_row(&rows[i]);
        out.append(line.as_str());
        assert(out@ =~= head + (was + line@));
        i = i + 1;
    }
    assert(all.take(i as int) =~= all);
    out
}

/// The rows after the cursor in the order of a report.
pub open spec fn remaining(keys: Seq<Seq<char>>, after: Option<Seq<char>>, newest_first: bool) -> Seq<
    Seq<char>,
> {
    let v = match after {
        None => keys,
        Some(a) => keys.filter(
            |k: Seq<char>| if newest_first {
                text_lt(k, a)
            } else {
                text_lt(a, k)
            },
        ),
    };
    if newest_first {
        v.reverse()
    } else {
        v
    }
}

#[verifier::loop_isolation(false)]
fn keys_left(keys: &Names, after: &Option<String>, newest_first: bool) -> (r: Vec<String>)
    ensures
        texts(r@) == remaining(in_order(keys@), opt_text(*after), newest_first),
{
    let ghost all = in_order(keys@);
    let n: usize = keys.len();
    let mut out: Vec<String> = Vec::new();
    let mut i: usize = 0;
    match after {
        None => {
            out = keys.to_list();
        },
        Some(a) => {
            let ghost am = a@;
            let ghost p = |k: Seq<char>| if newest_first {
                text_lt(k, am)
            } else {
                text_lt(am, k)
            };
            assert(all.take(0).filter(p) =~= Seq::<Seq<char>>::empty());
            assert(texts(out@) =~= Seq::<Seq<char>>::empty());
            while i < n
                invariant
                    i <= n,
                    texts(out@) == all.take(i as int).filter(p),
                decreases n - i,
            {
                proof {
                    assert(all.take(i + 1) =~= all.take(i as int).push(all[i as int]));
                    all.take(i as int).lemma_filter_push(all[i as int], p);
                }
                let k = keys.at(i).as_str();
                let take = if newest_first {
                    before(k, a.as_str())
                } else {
                    before(a.as_str(), k)
                };
                if take {
                    let ghost was = texts(out@);
                    out.push(k.to_owned());
                    assert(texts(out@) =~= was.push(k@));
                }
                i = i + 1;
            }
            assert(all.take(n as int) =~= all);
        },
    }
    if !newest_first {
        return out;
    }
    let ghost v = texts(out@);
    let mut rev: Vec<String> = Vec::new();
    let mut j: usize = out.len();
    assert(texts(rev@) =~= Seq::<Seq<char>>::empty());
    while j > 0
        invariant
            j <= out.len(),
            v == texts(out@),
            texts(rev@).len() == out.len() - j,
            forall|x: int|
                0 <= x < texts(rev@).len() ==> #[trigger] texts(rev@)[x] == v[v.len() - 1 - x],
        decreases j,
    {
        j = j - 1;
        let ghost was = texts(rev@);
        assert(v[j as int] == out[j as int]@);
        rev.push(out[j].clone());
        assert(texts(rev@) =~= was.push(v[j as int]));
    }
    assert(texts(rev@) =~= v.reverse());
    rev
}

/// The accepted ones among the first `k` keys.
pub open spec fn picked(keys: Seq<Seq<char>>, flags: Seq<bool>, k: nat) -> Seq<Seq<char>>
    decreases k,
{
    if k == 0 {
        Seq::empty()
    } else if flags[k - 1] {
        picked(keys, flags, (k - 1) as nat).push(keys[k - 1])
    } else {
        picked(keys, flags, (k - 1) as nat)
    }
}

/// A page: the accepted rows, and after which row the next page continues.
pub open spec fn page_of(keys: Seq<Seq<char>>, flags: Seq<bool>, limit: nat) -> (
    Seq<Seq<char>>,
    Option<Seq<char>>,
) {
    let end = examined(flags, 0, 0, limit);
    (
        picked(keys, flags, end),
        if continues_after(flags, limit) {
            Some(keys[end - 1])
        } else {
            None
        },
    )
}

#[verifier::loop_isolation(false)]
fn take_page(keys: &Vec<String>, flags: &Vec<bool>, limit: usize) -> (r: (Vec<String>, Option<String>))
    requires
        keys.len() == flags.len(),
        limit >= 1,
    ensures
        ({
            let out = page_of(texts(keys@), flags@, limit as nat);
            texts(r.0@) == out.0 && opt_text(r.1) == out.1
        }),
{
    let (end, more) = scan_flags(flags, limit);
    let ghost all = texts(keys@);
    let mut out: Vec<String> = Vec::new();
    let mut i: usize = 0;
    assert(texts(out@) =~= Seq::<Seq<char>>::empty());
    while i < end
        invariant
            i <= end,
            texts(out@) == picked(all, flags@, i as nat),
        decreases end - i,
    {
        if flags[i] {
            let ghost was = texts(out@);
            out.push(keys[i].clone());
            assert(all[i as int] == keys[i as int]@);
            assert(texts(out@) =~= was.push(all[i as int]));
        }
        i = i + 1;
    }
    let next = if more {
        assert(all[end - 1] == keys[end - 1]@);
        Some(keys[end - 1].clone())
    } else {
        None
    };
    (out, next)
}

/// Whether each of these events passes the filter.
pub open spec fn event_flags(
    f: AuditFilterModel,
    events: Map<Seq<char>, AuditEventModel>,
    keys: Seq<Seq<char>>,
) -> Seq<bool> {
    keys.map_values(|k: Seq<char>| events.dom().contains(k) && event_fits(f, events[k]))
}

/// The row of an event.
pub open spec fn event_row(e: AuditEventModel) -> Seq<Seq<char>> {
    seq![
        e.id,
        decimal(e.at as nat),
        e.actor,
        e.action,
        e.target,
        match e.run_id {
            Some(r) => r,
            None => ""@,
        },
        match e.request_id {
            Some(r) => r,
            None => ""@,
        },
    ]
}

pub open spec fn audit_header() -> Seq<Seq<char>> {
    seq!["id"@, "at"@, "actor"@, "action"@, "target"@, "run_id"@, "request_id"@]
}

fn or_empty(o: &Option<String>) -> (r: String)
    ensures
        r@ == match opt_text(*o) {
            Some(s) => s,
            None => ""@,
        },
{
    match o {
        Some(s) => s.clone(),
        None => "".to_owned(),
    }
}

fn make_event_row(e: &AuditEvent) -> (r: Vec<String>)
    ensures
        texts(r@) == event_row(e@),
{
    let mut v: Vec<String> = Vec::new();
    v.push(e.id.clone());
    v.push(decimal_text(e.at));
    v.push(e.actor.clone());
    v.push(e.action.clone());
    v.push(e.target.clone());
    v.push(or_empty(&e.run_id));
    v.push(or_empty(&e.request_id));
    assert(texts(v@) =~= event_row(e@));
    v
}

/// A page of the audit trail, the newest events first.
pub open spec fn audit_page_of(
    events: Map<Seq<char>, AuditEventModel>,
    f: AuditFilterModel,
    after: Option<Seq<char>>,
    limit: nat,
) -> (Seq<AuditEventModel>, Option<Seq<char>>) {
    let keys = remaining(in_order(events.dom()), after, true);
    let p = page_of(keys, event_flags(f, events, keys), limit);
    (p.0.map_values(|k: Seq<char>| events[k]), p.1)
}

proof fn lemma_picked_known(keys: Seq<Seq<char>>, flags: Seq<bool>, k: nat, dom: Set<Seq<char>>)
    requires
        k <= keys.len(),
        keys.len() == flags.len(),
        forall|i: int| 0 <= i < keys.len() && #[trigger] flags[i] ==> dom.contains(keys[i]),
    ensures
        forall|i: int|
            0 <= i < picked(keys, flags, k).len() ==> dom.contains(#[trigger] picked(keys, flags, k)[i]),
    decreases k,
{
    if k > 0 {
        lemma_picked_known(keys, flags, (k - 1) as nat, dom);
        let rest = picked(keys, flags, (k - 1) as nat);
        let all = picked(keys, flags, k);
        assert forall|i: int| 0 <= i < all.len() implies dom.contains(#[trigger] all[i]) by {
            if i < rest.len() {
                assert(all[i] == rest[i]);
            } else {
                assert(flags[k - 1]);
                assert(all[i] == keys[k - 1]);
            }
        }
    }
}

proof fn lemma_examined_bound(flags: Seq<bool>, k: nat, found: nat, limit: nat)
    ensures
        examined(flags, k, found, limit) <= flags.len() || k > flags.len(),
    decreases flags.len() - k,
{
    if k < flags.len() {
        let f = if flags[k as int] {
            found + 1
        } else {
            found
        };
        if !(f == limit || k + 1 >= EXAMINE_CAP) {
            lemma_examined_bound(flags, k + 1, f, limit);
        }
    }
}

impl Core {
    /// A page of the audit trail, and after which event the next page continues.
    #[verifier::loop_isolation(false)]
    pub fn audit_page(
        &self,
        events: &Table<AuditEvent>,
        filter: &AuditFilter,
        after: &Option<String>,
        limit: usize,
    ) -> (r: (Vec<AuditEvent>, Option<String>))
        requires
            limit >= 1,
        ensures
            ({
                let out = audit_page_of(events@, filter@, opt_text(*after), limit as nat);
                views(r.0@) == out.0 && opt_text(r.1) == out.1
            }),
    {
        let known = events.keys();
        let keys = keys_left(&known, after, true);
        let ghost all = texts(keys@);
        let ghost want = event_flags(filter@, events@, all);
        let mut flags: Vec<bool> = Vec::new();
        let mut i: usize = 0;
        assert(flags@ =~= want.take(0));
        while i < keys.len()
            invariant
                i <= keys.len(),
                flags@ == want.take(i as int),
            decreases keys.len() - i,
        {
            assert(all[i as int] == keys[i as int]@);
            let ok = match events.get(keys[i].as_str()) {
                Some(e) => filter.matches(e),
                None => false,
            };
            flags.push(ok);
            assert(want.take(i + 1) =~= want.take(i as int).push(want[i as int]));
            i = i + 1;
        }
        assert(want.take(i as int) =~= want);
        let (ids, next) = take_page(&keys, &flags, limit);
        let ghost im = texts(ids@);
        proof {
            lemma_examined_bound(want, 0, 0, limit as nat);
            assert forall|j: int| 0 <= j < all.len() && #[trigger] want[j] implies events@.dom().contains(
                all[j],
            ) by {}
            lemma_picked_known(all, want, examined(want, 0, 0, limit as nat), events@.dom());
        }
        let ghost rows = im.map_values(|k: Seq<char>| events@[k]);
        let mut out: Vec<AuditEvent> = Vec::new();
        let mut j: usize = 0;
        assert(views(out@) =~= rows.take(0));
        while j < ids.len()
            invariant
                j <= ids.len(),
                views(out@) == rows.take(j as int),
            decreases ids.len() - j,
        {
            assert(im[j as int] == ids[j as int]@);
            assert(events@.dom().contains(im[j as int]));
            if let Some(e) = events.get(ids[j].as_str()) {
                let ghost was = views(out@);
                let x = e.dup();
                let ghost xm = x@;
                out.push(x);
                assert(views(out@) =~= was.push(xm));
                assert(rows.take(j + 1) =~= rows.take(j as int).push(xm));
            }
            j = j + 1;
        }
        assert(rows.take(j as int) =~= rows);
        (out, next)
    }

    /// A page of the audit trail. `after` is where an opened cursor continues.
    pub fn audit_review(
        &self,
        events: &Table<AuditEvent>,
        query: &AuditReviewQuery,
        after: &Option<String>,
    ) -> (r: Result<AuditReview, Error>)
        ensures
            agrees_with(
                r,
                match filter_of(query@) {
                    Err(f) => Err(f),
                    Ok(filter) => {
                        let limit = limit_of(query@.limit, 100, 500);
                        let p = audit_page_of(events@, filter, opt_text(*after), limit as nat);
                        Ok(AuditReviewModel { events: p.0, next_after: p.1, limit })
                    },
                },
            ),
    {
        let filter = match AuditFilter::parse(query) {
            Err(e) => return Err(e),
            Ok(f) => f,
        };
        let limit = bound_limit(query.limit, 100, 500);
        let (page, next) = self.audit_page(events, &filter, after, limit);
        Ok(AuditReview { events: page, next_after: next, limit })
    }

    /// A page of the audit trail as CSV. `after` is where an opened cursor continues.
    #[verifier::loop_isolation(false)]
    pub fn audit_csv(
        &self,
        events: &Table<AuditEvent>,
        query: &AuditReviewQuery,
        after: &Option<String>,
    ) -> (r: Result<ReportPage, Error>)
        ensures
            match filter_of(query@) {
                Err(f) => fails(r, f),
                Ok(filter) => {
                    let p = audit_page_of(
                        events@,
                        filter,
                        opt_text(*after),
                        limit_of(query@.limit, 100, 1000) as nat,
                    );
                    r is Ok && r->Ok_0@ == (ReportPageModel {
                        body: row_text(audit_header()).push('\n') + rows_text(
                            p.0.map_values(|e: AuditEventModel| event_row(e)),
                        ),
                        next_after: p.1,
                        rows: p.0.len() as usize,
                    })
                },
            },
    {
        let filter = match AuditFilter::parse(query) {
            Err(e) => return Err(e),
            Ok(f) => f,
        };
        let limit = bound_limit(query.limit, 100, 1000);
        let (page, next) = self.audit_page(events, &filter, after, limit);
        let ghost pm = views(page@);
        let ghost want = pm.map_values(|e: AuditEventModel| event_row(e));
        let mut rows: Vec<Vec<String>> = Vec::new();
        let mut i: usize = 0;
        assert(grid(rows@) =~= want.take(0));
        while i < page.len()
            invariant
                i <= page.len(),
                grid(rows@) == want.take(i as int),
            decreases page.len() - i,
        {
            assert(pm[i as int] == page[i as int]@);
            let row = make_event_row(&page[i]);
            let ghost was = grid(rows@);
            let ghost rm = texts(row@);
            rows.push(row);
            assert(grid(rows@) =~= was.push(rm));
            assert(want.take(i + 1) =~= want.take(i as int).push(rm));
            i = i + 1;
        }
        assert(want.take(i as int) =~= want);
        let mut names: Vec<&'static str> = Vec::new();
        names.push("id");
        names.push("at");
        names.push("actor");
        names.push("action");
        names.push("target");
        names.push("run_id");
        names.push("request_id");
        let header = text_list(&names);
        assert(texts(header@) =~= audit_header());
        assert(pm.len() == page.len());
        Ok(ReportPage { body: csv_document(&header, &rows), next_after: next, rows: page.len() })
    }
}

/// The groups that a user is in.
pub open spec fn membership(groups: Map<Seq<char>, GroupModel>, user_id: Seq<char>, name: Seq<char>) -> bool {
    exists|k: Seq<char>| #[trigger]
        groups.dom().contains(k) && groups[k].members.contains(user_id) && groups[k].name == name
}

#[verifier::loop_isolation(false)]
pub fn memberships(groups: &Table<Group>, user_id: &str) -> (r: Names)
    ensures
        forall|g: Seq<char>| #[trigger] r@.contains(g) <==> membership(groups@, user_id@, g),
{
    let ghost m = groups@;
    groups.listing();
    let n: usize = groups.len();
    let mut out = Names::new();
    let mut i: usize = 0;
    while i < n
        invariant
            i <= n,
            forall|g: Seq<char>| #[trigger] out@.contains(g) ==> membership(m, user_id@, g),
            forall|k: int|
                0 <= k < i && (#[trigger] groups.entries()[k]).1.members.contains(user_id@)
                    ==> out@.contains(groups.entries()[k].1.name),
        decreases n - i,
    {
        let g = groups.row_at(i);
        if g.members.contains(user_id) {
            proof {
                let e = groups.entries()[i as int];
                assert(m.dom().contains(e.0) && m[e.0] == e.1);
                assert(membership(m, user_id@, e.1.name));
            }
            out.insert(g.name.as_str());
        }
        i = i + 1;
    }
    proof {
        assert forall|g: Seq<char>| membership(m, user_id@, g) implies #[trigger] out@.contains(g) by {
            let k = choose|k: Seq<char>| #[trigger]
                m.dom().contains(k) && m[k].members.contains(user_id@) && m[k].name == g;
            let a = choose|a: int|
                0 <= a < groups.entries().len() && (#[trigger] groups.entries()[a]).0 == k;
            assert(groups.entries()[a].1 == m[k]);
        }
    }
    out
}

pub open spec fn flag_text(b: bool) -> Seq<char> {
    if b {
        "true"@
    } else {
        "false"@
    }
}

fn flag(b: bool) -> (r: String)
    ensures
        r@ == flag_text(b),
{
    if b {
        "true".to_owned()
    } else {
        "false".to_owned()
    }
}

/// The names of the groups that a user is in, as a set.
pub open spec fn group_names(groups: Map<Seq<char>, GroupModel>, user_id: Seq<char>) -> Set<Seq<char>> {
    Set::new(|g: Seq<char>| membership(groups, user_id, g))
}

/// The row of a user.
pub open spec fn user_row(u: UserModel, groups: Map<Seq<char>, GroupModel>) -> Seq<Seq<char>> {
    seq![
        u.id,
        u.username,
        match u.email {
            Some(e) => e,
            None => ""@,
        },
        u.display_name,
        flag_text(u.enabled),
        flag_text(u.admin),
        decimal(u.created_at as nat),
        joined(in_order(group_names(groups, u.id)), ";"@),
    ]
}

pub open spec fn user_header() -> Seq<Seq<char>> {
    seq![
        "id"@,
        "username"@,
        "email"@,
        "display_name"@,
        "enabled"@,
        "admin"@,
        "created_at"@,
        "groups"@,
    ]
}

fn make_user_row(u: &User, groups: &Table<Group>) -> (r: Vec<String>)
    ensures
        texts(r@) == user_row(u@, groups@),
{
    let names = memberships(groups, u.id.as_str());
    assert(names@ =~= group_names(groups@, u@.id));
    let mut v: Vec<String> = Vec::new();
    v.push(u.id.clone());
    v.push(u.username.clone());
    v.push(or_empty(&u.email));
    v.push(u.display_name.clone());
    v.push(flag(u.enabled));
    v.push(flag(u.admin));
    v.push(decimal_text(u.created_at));
    v.push(names.join(";"));
    assert(texts(v@) =~= user_row(u@, groups@));
    v
}

/// Whether each of these users is visible and has the wanted part in their name.
pub open spec fn user_flags(
    users: Map<Seq<char>, UserModel>,
    keys: Seq<Seq<char>>,
    visible: Set<Seq<char>>,
    filter: Option<Seq<char>>,
) -> Seq<bool> {
    keys.map_values(
        |k: Seq<char>|
            users.dom().contains(k) && visible.contains(users[k].username) && (filter is None
                || contains_text(users[k].username, filter->0)),
    )
}

/// A page of users.
pub open spec fn user_page_of(
    users: Map<Seq<char>, UserModel>,
    visible: Set<Seq<char>>,
    filter: Option<Seq<char>>,
    after: Option<Seq<char>>,
    limit: nat,
) -> (Seq<UserModel>, Option<Seq<char>>) {
    let keys = remaining(in_order(users.dom()), after, false);
    let p = page_of(keys, user_flags(users, keys, visible, filter), limit);
    (p.0.map_values(|k: Seq<char>| users[k]), p.1)
}

impl Core {
    /// A page of the users whose names are `visible`, as CSV. `may_read` tells whether the caller
    /// may read users at all.
    #[verifier::loop_isolation(false)]
    pub fn users_csv(
        &self,
        tx: &Tx,
        query: &UserReportQuery,
        may_read: bool,
        visible: &Names,
        after: &Option<String>,
    ) -> (r: Result<ReportPage, Error>)
        ensures
            match filter_text_check(query@.filter, 256) {
                Err(f) => fails(r, f),
                Ok(_) => if !may_read {
                    fails(r, Failure::Forbidden)
                } else if tx@.groups.dom().len() > GROUP_CAP {
                    fails(r, Failure::Bad("Too many groups to export users"@))
                } else {
                    let p = user_page_of(
                        tx@.users,
                        visible@,
                        query@.filter,
                        opt_text(*after),
                        limit_of(query@.limit, 100, 1000) as nat,
                    );
                    r is Ok && r->Ok_0@ == (ReportPageModel {
                        body: row_text(user_header()).push('\n') + rows_text(
                            p.0.map_values(|u: UserModel| user_row(u, tx@.groups)),
                        ),
                        next_after: p.1,
                        rows: p.0.len() as usize,
                    })
                },
            },
    {
        if let Err(e) = bounded_text(&query.filter, 256) {
            return Err(e);
        }
        let limit = bound_limit(query.limit, 100, 1000);
        if !may_read {
            return Err(Error::Forbidden);
        }
        let group_keys = tx.groups.keys();
        if group_keys.len() > GROUP_CAP {
            return Err(Error::bad("Too many groups to export users"));
        }
        let known = tx.users.keys();
        let keys = keys_left(&known, after, false);
        let ghost all = texts(keys@);
        let ghost us = tx@.users;
        let ghost want = user_flags(us, all, visible@, query@.filter);
        let mut flags: Vec<bool> = Vec::new();
        let mut i: usize = 0;
        assert(flags@ =~= want.take(0));
        while i < keys.len()
            invariant
                i <= keys.len(),
                flags@ == want.take(i as int),
            decreases keys.len() - i,
        {
            assert(all[i as int] == keys[i as int]@);
            let ok = match tx.users.get(keys[i].as_str()) {
                Some(u) => visible.contains(u.username.as_str()) && match &query.filter {
                    None => true,
                    Some(f) => contains(u.username.as_str(), f.as_str()),
                },
                None => false,
            };
            flags.push(ok);
            assert(want.take(i + 1) =~= want.take(i as int).push(want[i as int]));
            i = i + 1;
        }
        assert(want.take(i as int) =~= want);
        let (ids, next) = take_page(&keys, &flags, limit);
        let ghost im = texts(ids@);
        proof {
            lemma_examined_bound(want, 0, 0, limit as nat);
            assert forall|j: int| 0 <= j < all.len() && #[trigger] want[j] implies us.dom().contains(
                all[j],
            ) by {}
            lemma_picked_known(all, want, examined(want, 0, 0, limit as nat), us.dom());
        }
        let ghost page = im.map_values(|k: Seq<char>| us[k]);
        let ghost lines = page.map_values(|u: UserModel| user_row(u, tx@.groups));
        let mut rows: Vec<Vec<String>> = Vec::new();
        let mut j: usize = 0;
        assert(grid(rows@) =~= lines.take(0));
        while j < ids.len()
            invariant
                j <= ids.len(),
                rows.len() == j,
                grid(rows@) == lines.take(j as int),
            decreases ids.len() - j,
        {
            assert(im[j as int] == ids[j as int]@);
            assert(us.dom().contains(im[j as int]));
            if let Some(u) = tx.users.get(ids[j].as_str()) {
                let row = make_user_row(u, &tx.groups);
                let ghost was = grid(rows@);
                let ghost rm = texts(row@);
                rows.push(row);
                assert(grid(rows@) =~= was.push(rm));
                assert(lines.take(j + 1) =~= lines.take(j as int).push(rm));
            }
            j = j + 1;
        }
        assert(lines.take(j as int) =~= lines);
        let mut names: Vec<&'static str> = Vec::new();
        names.push("id");
        names.push("username");
        names.push("email");
        names.push("display_name");
        names.push("enabled");
        names.push("admin");
        names.push("created_at");
        names.push("groups");
        let header = text_list(&names);
        assert(texts(header@) =~= user_header());
        let count: usize = rows.len();
        Ok(ReportPage { body: csv_document(&header, &rows), next_after: next, rows: count })
    }
}

/// What a cursor holds, once it was opened.
pub struct CursorData {
    pub version: u64,
    pub actor: String,
    pub filter: Json,
    pub revision: Option<u64>,
    pub expires_at: Option<u64>,
    pub after: Option<String>,
}

/// What a [`CursorData`] holds.
pub struct CursorDataModel {
    pub version: u64,
    pub actor: Seq<char>,
    pub filter: JsonModel,
    pub revision: Option<u64>,
    pub expires_at: Option<u64>,
    pub after: Option<Seq<char>>,
}

impl View for CursorData {
    type V = CursorDataModel;

    open spec fn view(&self) -> CursorDataModel {
        CursorDataModel {
            version: self.version,
            actor: self.actor@,
            filter: self.filter@,
            revision: self.revision,
            expires_at: self.expires_at,
            after: crate::text::opt_text(self.after),
        }
    }
}

impl Row for CursorData {
    fn dup(&self) -> (r: Self) {
        CursorData {
            version: self.version,
            actor: self.actor.clone(),
            filter: self.filter.dup(),
            revision: self.revision,
            expires_at: self.expires_at,
            after: crate::text::copy_opt(&self.after),
        }
    }
}

/// Where an opened cursor continues, if it belongs to this query of this actor and still stands.
pub open spec fn cursor_check(
    c: CursorDataModel,
    actor: Seq<char>,
    filter: JsonModel,
    revision: Option<u64>,
    now: u64,
) -> Result<Seq<char>, Failure> {
    if c.version != 1 || c.actor != actor || c.filter != filter {
        Err(Failure::Bad("Report cursor belongs to another query or actor"@))
    } else if (revision is Some && c.revision != revision) || c.expires_at is None || c.expires_at->0
        <= now {
        Err(Failure::Conflict("Report changed or cursor expired; restart enumeration"@))
    } else if c.after is None || (c.after->0).len() == 0 || byte_count(c.after->0) > 256
        || some_control(c.after->0) {
        Err(Failure::Bad("Invalid report cursor"@))
    } else {
        Ok(c.after->0)
    }
}

pub fn open_cursor(
    c: &CursorData,
    actor: &str,
    filter: &Json,
    revision: Option<u64>,
    now: u64,
) -> (r: Result<String, Error>)
    ensures
        agrees_with(r, cursor_check(c@, actor@, filter@, revision, now)),
{
    if c.version != 1 || !same(c.actor.as_str(), actor) || !same_json(&c.filter, filter) {
        return Err(Error::bad("Report cursor belongs to another query or actor"));
    }
    let moved = revision.is_some() && c.revision != revision;
    let live = match c.expires_at {
        Some(t) => t > now,
        None => false,
    };
    if moved || !live {
        return Err(
            Error::conflict("Report changed or cursor expired; restart enumeration"),
        );
    }
    match &c.after {
        None => Err(Error::bad("Invalid report cursor")),
        Some(a) => {
            if a.as_str().is_empty() || byte_len(a.as_str()) > 256 || has_control(a.as_str()) {
                Err(Error::bad("Invalid report cursor"))
            } else {
                Ok(a.clone())
            }
        },
    }
}

/// What a cursor that continues after a row holds before it is sealed.
pub fn seal_cursor(actor: &str, filter: &Json, revision: Option<u64>, after: &str, now: u64) -> (r: CursorData)
    ensures
        r@ == (CursorDataModel {
            version: 1,
            actor: actor@,
            filter: filter@,
            revision,
            expires_at: Some(extended(now, CURSOR_TTL)),
            after: Some(after@),
        }),
{
    CursorData {
        version: 1,
        actor: actor.to_owned(),
        filter: filter.dup(),
        revision,
        expires_at: Some(now.saturating_add(CURSOR_TTL)),
        after: Some(after.to_owned()),
    }
}

/// A cursor continues where it was made, for the same actor and query, for an hour.
pub proof fn cursors_continue_where_they_were_made(
    actor: Seq<char>,
    filter: JsonModel,
    revision: Option<u64>,
    after: Seq<char>,
    now: u64,
    later: u64,
)
    requires
        after.len() > 0,
        byte_count(after) <= 256,
        !some_control(after),
        later < extended(now, CURSOR_TTL),
    ensures
        cursor_check(
            CursorDataModel {
                version: 1,
                actor,
                filter,
                revision,
                expires_at: Some(extended(now, CURSOR_TTL)),
                after: Some(after),
            },
            actor,
            filter,
            revision,
            later,
        ) == Ok::<Seq<char>, Failure>(after),
{
}

/// An optional text as JSON.
pub open spec fn text_or_null(o: Option<Seq<char>>) -> JsonModel {
    match o {
        Some(t) => JsonModel::Text(t),
        None => JsonModel::Null,
    }
}

/// An optional time as JSON.
pub open spec fn time_or_null(o: Option<u64>) -> JsonModel {
    match o {
        Some(n) => JsonModel::Unsigned(n),
        None => JsonModel::Null,
    }
}

fn opt_json(o: &Option<String>) -> (r: Json)
    ensures
        r@ == text_or_null(opt_text(*o)),
{
    match o {
        Some(t) => text(t.as_str()),
        None => Json::Null,
    }
}

fn time_json(o: Option<u64>) -> (r: Json)
    ensures
        r@ == time_or_null(o),
{
    match o {
        Some(n) => Json::Unsigned(n),
        None => Json::Null,
    }
}

/// A filter as a cursor remembers it.
pub open spec fn filter_value(f: AuditFilterModel) -> JsonModel {
    JsonModel::Object(
        seq![
            ("action"@, text_or_null(f.action)),
            ("actor"@, text_or_null(f.actor)),
            ("target"@, text_or_null(f.target)),
            ("run_id"@, text_or_null(f.run_id)),
            ("from"@, time_or_null(f.from)),
            ("to"@, time_or_null(f.to)),
        ],
    )
}

impl AuditFilter {
    /// This filter as a cursor remembers it.
    pub fn value(&self) -> (r: Json)
        ensures
            r@ == filter_value(self@),
    {
        let mut m: Vec<Member> = Vec::new();
        m.push(member("action", opt_json(&self.action)));
        m.push(member("actor", opt_json(&self.actor)));
        m.push(member("target", opt_json(&self.target)));
        m.push(member("run_id", opt_json(&self.run_id)));
        m.push(member("from", time_json(self.from)));
        m.push(member("to", time_json(self.to)));
        proof {
            lemma_members_of(m);
            assert(members_of(m@) =~= filter_value(self@)->Object_0);
        }
        Json::Object(m)
    }
}

/// An event is reported where everything that the filter names fits: the actor, the target and the run as
/// they are, the time within the range, and the action itself or one below it.
pub proof fn events_fit_everything_that_is_asked(f: AuditFilterModel, e: AuditEventModel)
    requires
        f.action is None,
    ensures
        event_fits(f, e) <==> {
            &&& f.actor is None || f.actor == Some(e.actor)
            &&& f.target is None || f.target == Some(e.target)
            &&& f.run_id is None || f.run_id == e.run_id
            &&& f.from is None || f.from->0 <= e.at
            &&& f.to is None || e.at <= f.to->0
        },
{
}

/// A plain action stands for itself and those below it; one that ends in a star, for all that begin as it
/// does.
pub proof fn actions_stand_for_those_below_them(action: Seq<char>, filter: Seq<char>)
    ensures
        filter.len() > 0 && filter.last() != '*' && filter.last() != '.' ==> (action_fits(
            action,
            filter,
        ) <==> action == filter || has_prefix(action, filter + "."@)),
        filter.len() > 1 && filter.last() == '*' ==> (action_fits(action, filter) <==> has_prefix(
            action,
            filter.drop_last(),
        )),
        filter.len() > 1 && filter.last() == '.' ==> (action_fits(action, filter) <==> has_prefix(
            action,
            filter,
        )),
{
    reveal_strlit("*");
    reveal_strlit(".");
    let n = filter.len() as int;
    assert("*"@ =~= seq!['*'] && "."@ =~= seq!['.']);
    if n > 0 {
        assert(filter.skip(n - 1) =~= seq![filter.last()]);
        assert(seq![filter.last()][0] == filter.last());
        assert(seq!['*'][0] == '*' && seq!['.'][0] == '.');
    }
}

/// The page of a report holds rows that fit, at most as many as were asked for.
pub proof fn pages_hold_rows_that_fit(
    keys: Seq<Seq<char>>,
    flags: Seq<bool>,
    limit: nat,
    k: Seq<char>,
)
    requires
        keys.len() == flags.len(),
        limit >= 1,
        keys.len() < EXAMINE_CAP,
        keys.no_duplicates(),
    ensures
        page_of(keys, flags, limit).0.contains(k) ==> exists|i: int|
            0 <= i < keys.len() && #[trigger] keys[i] == k && flags[i],
        page_of(keys, flags, limit).0.len() <= limit,
        accepted_count(flags, flags.len()) < limit ==> (page_of(keys, flags, limit).0.contains(k)
            <==> exists|i: int| 0 <= i < keys.len() && #[trigger] keys[i] == k && flags[i]),
{
    let end = examined(flags, 0, 0, limit);
    lemma_examined(flags, 0, limit);
    lemma_picked(keys, flags, end, k);
    lemma_picked_count(keys, flags, end);
}

proof fn lemma_examined(flags: Seq<bool>, k: nat, limit: nat)
    requires
        k <= flags.len(),
        flags.len() < EXAMINE_CAP,
        accepted_count(flags, k) < limit,
    ensures
        ({
            let end = examined(flags, k, accepted_count(flags, k), limit);
            &&& k <= end <= flags.len()
            &&& accepted_count(flags, end) <= limit
            &&& accepted_count(flags, flags.len()) < limit ==> end == flags.len()
        }),
    decreases flags.len() - k,
{
    if k < flags.len() {
        let f = accepted_count(flags, k + 1);
        if f < limit && k + 1 < EXAMINE_CAP {
            lemma_examined(flags, k + 1, limit);
        } else {
            lemma_counts_grow(flags, k + 1, flags.len());
        }
    }
}

proof fn lemma_counts_grow(flags: Seq<bool>, a: nat, b: nat)
    requires
        a <= b,
    ensures
        accepted_count(flags, a) <= accepted_count(flags, b),
    decreases b,
{
    if a < b {
        lemma_counts_grow(flags, a, (b - 1) as nat);
    }
}

proof fn lemma_picked_count(keys: Seq<Seq<char>>, flags: Seq<bool>, n: nat)
    ensures
        picked(keys, flags, n).len() == accepted_count(flags, n),
    decreases n,
{
    if n > 0 {
        lemma_picked_count(keys, flags, (n - 1) as nat);
    }
}

proof fn lemma_picked(keys: Seq<Seq<char>>, flags: Seq<bool>, n: nat, k: Seq<char>)
    requires
        n <= keys.len(),
    ensures
        picked(keys, flags, n).contains(k) <==> exists|i: int|
            0 <= i < n && #[trigger] keys[i] == k && flags[i],
    decreases n,
{
    if n > 0 {
        let m = (n - 1) as nat;
        let rest = picked(keys, flags, m);
        lemma_picked(keys, flags, m, k);
        let all = picked(keys, flags, n);
        if rest.contains(k) {
            let j = rest.index_of(k);
            assert(all[j] == k);
        }
        if all.contains(k) && !rest.contains(k) {
            let j = all.index_of(k);
            if j < rest.len() {
                assert(rest[j] == k);
            }
            assert(keys[m as int] == k && flags[m as int]);
        }
        if exists|i: int| 0 <= i < n && #[trigger] keys[i] == k && flags[i] {
            let i = choose|i: int| 0 <= i < n && #[trigger] keys[i] == k && flags[i];
            if i == m {
                assert(all[rest.len() as int] == k);
            }
        }
    }
}

/// A row shows the event as it was, and a user as they are.
pub proof fn rows_show_their_subject(
    e: AuditEventModel,
    u: UserModel,
    groups: Map<Seq<char>, GroupModel>,
)
    ensures
        event_row(e).len() == audit_header().len(),
        event_row(e)[0] == e.id && event_row(e)[1] == decimal(e.at as nat) && event_row(e)[2] == e.actor
            && event_row(e)[3] == e.action && event_row(e)[4] == e.target,
        audit_header() == seq!["id"@, "at"@, "actor"@, "action"@, "target"@, "run_id"@, "request_id"@],
        user_row(u, groups).len() == user_header().len(),
        user_row(u, groups)[0] == u.id && user_row(u, groups)[1] == u.username,
        user_row(u, groups)[3] == u.display_name,
        user_row(u, groups)[4] == if u.enabled {
            "true"@
        } else {
            "false"@
        },
        user_row(u, groups)[5] == if u.admin {
            "true"@
        } else {
            "false"@
        },
        user_row(u, groups)[6] == decimal(u.created_at as nat),
{
}

/// As many rows are given as were asked for, within the bounds of the report.
pub proof fn report_sizes_are_bounded(requested: Option<usize>, default: usize, max: usize)
    requires
        1 <= default <= max,
    ensures
        1 <= limit_of(requested, default, max) <= max,
        requested is None ==> limit_of(requested, default, max) == default,
        requested matches Some(n) ==> (1 <= n <= max ==> limit_of(requested, default, max) == n) && (n
            > max ==> limit_of(requested, default, max) == max) && (n == 0 ==> limit_of(
            requested,
            default,
            max,
        ) == 1),
{
}

/// A review asks for what the query says, if its texts are short and its times are in order.
pub proof fn reviews_ask_for_what_was_said(q: AuditReviewQueryModel)
    requires
        filter_of(q) is Ok,
    ensures
        ({
            let f = filter_of(q)->Ok_0;
            &&& f.action == q.action
            &&& f.actor == q.actor
            &&& f.target == q.target
            &&& f.run_id == q.run_id
            &&& f.from == q.from
            &&& f.to == q.to
            &&& q.from is Some && q.to is Some ==> q.from->0 <= q.to->0
            &&& q.action is Some ==> !only_wildcards(q.action->0)
            &&& filter_text_check(q.action, 256) is Ok
            &&& filter_text_check(q.actor, 256) is Ok
            &&& filter_text_check(q.target, 512) is Ok
            &&& filter_text_check(q.run_id, 256) is Ok
        }),
{
}

/// An audit page shows events of the log that fit what is asked, and at most as many as asked for.
pub proof fn audit_pages_show_fitting_events(
    events: Map<Seq<char>, AuditEventModel>,
    f: AuditFilterModel,
    limit: nat,
    e: AuditEventModel,
)
    requires
        limit >= 1,
        events.dom().finite(),
        events.dom().len() < EXAMINE_CAP,
    ensures
        audit_page_of(events, f, None, limit).0.len() <= limit,
        audit_page_of(events, f, None, limit).0.contains(e) ==> event_fits(f, e) && exists|k: Seq<char>| #[trigger]
            events.dom().contains(k) && events[k] == e,
{
    let keys = remaining(in_order(events.dom()), None, true);
    let flags = event_flags(f, events, keys);
    let p = page_of(keys, flags, limit);
    lemma_listed_once(events.dom());
    assert(keys.no_duplicates()) by {
        let v = in_order(events.dom());
        assert forall|i: int, j: int| 0 <= i < keys.len() && 0 <= j < keys.len() && i != j implies keys[i]
            != keys[j] by {
            assert(keys[i] == v[v.len() - 1 - i] && keys[j] == v[v.len() - 1 - j]);
        }
    }
    if audit_page_of(events, f, None, limit).0.contains(e) {
        let n = audit_page_of(events, f, None, limit).0.index_of(e);
        let k = p.0[n];
        assert(p.0.contains(k));
        pages_hold_rows_that_fit(keys, flags, limit, k);
        let i = choose|i: int| 0 <= i < keys.len() && #[trigger] keys[i] == k && flags[i];
        assert(events.dom().contains(k));
    }
    pages_hold_rows_that_fit(keys, flags, limit, Seq::empty());
}

proof fn lemma_listed_once(s: Set<Seq<char>>)
    requires
        s.finite(),
    ensures
        in_order(s).no_duplicates(),
        in_order(s).len() == s.len(),
{
    finite_sets_are_listed(s);
    let v = in_order(s);
    assert forall|i: int, j: int| 0 <= i < v.len() && 0 <= j < v.len() && i != j implies v[i] != v[j] by {
        lemma_lt_irreflexive(v[i]);
        if i < j {
            assert(text_lt(v[i], v[j]));
        } else {
            assert(text_lt(v[j], v[i]));
        }
    }
    v.unique_seq_to_set();
}

/// A page of users shows those who may be seen and whose names hold what is asked for.
pub proof fn user_pages_show_visible_users(
    users: Map<Seq<char>, UserModel>,
    visible: Set<Seq<char>>,
    filter: Option<Seq<char>>,
    limit: nat,
    u: UserModel,
)
    requires
        limit >= 1,
        users.dom().finite(),
        users.dom().len() < EXAMINE_CAP,
    ensures
        user_page_of(users, visible, filter, None, limit).0.len() <= limit,
        user_page_of(users, visible, filter, None, limit).0.contains(u) ==> visible.contains(u.username) && (
        filter is Some ==> contains_text(u.username, filter->0)) && exists|k: Seq<char>| #[trigger]
            users.dom().contains(k) && users[k] == u,
{
    let keys = remaining(in_order(users.dom()), None, false);
    let flags = user_flags(users, keys, visible, filter);
    let p = page_of(keys, flags, limit);
    lemma_listed_once(users.dom());
    if user_page_of(users, visible, filter, None, limit).0.contains(u) {
        let n = user_page_of(users, visible, filter, None, limit).0.index_of(u);
        let k = p.0[n];
        assert(p.0.contains(k));
        pages_hold_rows_that_fit(keys, flags, limit, k);
        let i = choose|i: int| 0 <= i < keys.len() && #[trigger] keys[i] == k && flags[i];
        assert(users.dom().contains(k));
    }
    pages_hold_rows_that_fit(keys, flags, limit, Seq::empty());
}

/// A row is its cells with commas between them, and a table is its rows, each on a line of its own.
pub proof fn tables_are_rows_of_cells(
    cells: Seq<Seq<char>>,
    a: Seq<Seq<Seq<char>>>,
    b: Seq<Seq<Seq<char>>>,
)
    ensures
        row_text(cells) == joined(cells.map_values(|c: Seq<char>| cell_of(c)), seq![',']),
        rows_text(a + b) == rows_text(a) + rows_text(b),
        rows_text(seq![cells]) == row_text(cells) + seq!['\n'],
    decreases cells.len(), b.len(),
{
    let f = |c: Seq<char>| cell_of(c);
    reveal_with_fuel(rows_text, 2);
    assert(seq![cells].drop_last() =~= Seq::<Seq<Seq<char>>>::empty());
    assert(rows_text(seq![cells]) =~= row_text(cells) + seq!['\n']);
    if cells.len() > 1 {
        tables_are_rows_of_cells(cells.drop_last(), a, b);
        assert(cells.map_values(f).drop_last() =~= cells.drop_last().map_values(f));
        assert(row_text(cells) =~= joined(cells.map_values(f), seq![',']));
    }
    if b.len() == 0 {
        assert(a + b =~= a);
        assert(rows_text(a) + rows_text(b) =~= rows_text(a));
    } else {
        if cells.len() <= 1 {
            tables_are_rows_of_cells(cells, a, b.drop_last());
            assert((a + b).drop_last() =~= a + b.drop_last());
            assert((a + b).last() == b.last());
            assert(rows_text(a + b) =~= rows_text(a) + rows_text(b));
        }
    }
}

/// A text that is asked for is not empty, not too long and without control characters.
pub proof fn asked_texts_are_bounded(s: Seq<char>, max: nat)
    ensures
        filter_text_check(Some(s), max) is Ok <==> 0 < s.len() && byte_count(s) <= max && !some_control(s),
        filter_text_check(None, max) is Ok,
{
}

} // verus!
