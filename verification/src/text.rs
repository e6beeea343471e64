//! Text operations with contracts over character sequences.
use vstd::prelude::*;
use vstd::string::*;
use vstd::utf8::encode_utf8;

verus! {

/// `String::push` appends one character.
pub assume_specification[ String::push ](s: &mut String, c: char)
    ensures
        final(s)@ == old(s)@.push(c),
;

/// `==` on `str`: two strings are equal when they hold the same characters.
#[verifier::external_body]
pub(crate) fn same(a: &str, b: &str) -> (r: bool)
    ensures
        r == (a@ == b@),
{
    a == b
}

/// The views of a list of strings.
pub open spec fn texts(v: Seq<String>) -> Seq<Seq<char>> {
    v.map_values(|s: String| s@)
}

/// The view of an optional string.
pub open spec fn opt_text(o: Option<String>) -> Option<Seq<char>> {
    match o {
        Some(s) => Some(s@),
        None => None,
    }
}

/// The view of an optional string slice.
pub open spec fn opt_str(o: Option<&str>) -> Option<Seq<char>> {
    match o {
        Some(s) => Some(s@),
        None => None,
    }
}

/// The length of a text in bytes, as UTF-8.
pub open spec fn byte_count(s: Seq<char>) -> nat {
    encode_utf8(s).len()
}

/// A control character (Unicode category Cc).
pub open spec fn control(c: char) -> bool {
    c <= '\u{1f}' || '\u{7f}' <= c <= '\u{9f}'
}

/// A character with the Unicode property White_Space.
pub open spec fn whitespace(c: char) -> bool {
    '\u{9}' <= c <= '\u{d}' || c == '\u{20}' || c == '\u{85}' || c == '\u{a0}' || c == '\u{1680}'
        || '\u{2000}' <= c <= '\u{200a}' || c == '\u{2028}' || c == '\u{2029}' || c == '\u{202f}'
        || c == '\u{205f}' || c == '\u{3000}'
}

pub open spec fn ascii_digit(c: char) -> bool {
    '0' <= c <= '9'
}

pub open spec fn ascii_letter(c: char) -> bool {
    'a' <= c <= 'z' || 'A' <= c <= 'Z'
}

pub open spec fn ascii_alphanumeric(c: char) -> bool {
    ascii_digit(c) || ascii_letter(c)
}

/// A visible ASCII character.
pub open spec fn ascii_graphic(c: char) -> bool {
    '!' <= c <= '~'
}

pub open spec fn lower_char(c: char) -> char {
    if 'A' <= c <= 'Z' {
        ((c as u32 + 32) as u8) as char
    } else {
        c
    }
}

pub open spec fn lower(s: Seq<char>) -> Seq<char> {
    s.map_values(|c: char| lower_char(c))
}

pub open spec fn has_prefix(s: Seq<char>, p: Seq<char>) -> bool {
    p.len() <= s.len() && s.take(p.len() as int) == p
}

pub open spec fn has_suffix(s: Seq<char>, p: Seq<char>) -> bool {
    p.len() <= s.len() && s.skip(s.len() - p.len()) == p
}

/// `p` occurs in `s` at position `i`.
pub open spec fn occurs_at(s: Seq<char>, p: Seq<char>, i: int) -> bool {
    0 <= i <= s.len() - p.len() && s.subrange(i, i + p.len()) == p
}

pub open spec fn contains_text(s: Seq<char>, p: Seq<char>) -> bool {
    exists|i: int| #[trigger] occurs_at(s, p, i)
}

pub open spec fn some_control(s: Seq<char>) -> bool {
    exists|i: int| 0 <= i < s.len() && #[trigger] control(s[i])
}

pub open spec fn some_whitespace(s: Seq<char>) -> bool {
    exists|i: int| 0 <= i < s.len() && #[trigger] whitespace(s[i])
}

pub open spec fn all_graphic(s: Seq<char>) -> bool {
    forall|i: int| 0 <= i < s.len() ==> #[trigger] ascii_graphic(s[i])
}

/// `s` without the whitespace at its start.
pub open spec fn trim_start(s: Seq<char>) -> Seq<char>
    decreases s.len(),
{
    if s.len() > 0 && whitespace(s[0]) {
        trim_start(s.drop_first())
    } else {
        s
    }
}

/// `s` without the whitespace at its end.
pub open spec fn trim_end(s: Seq<char>) -> Seq<char>
    decreases s.len(),
{
    if s.len() > 0 && whitespace(s.last()) {
        trim_end(s.drop_last())
    } else {
        s
    }
}

/// `s` without the whitespace around it.
pub open spec fn trimmed(s: Seq<char>) -> Seq<char> {
    trim_end(trim_start(s))
}

/// `s` without the characters `c` at its end.
pub open spec fn trim_end_char(s: Seq<char>, c: char) -> Seq<char>
    decreases s.len(),
{
    if s.len() > 0 && s.last() == c {
        trim_end_char(s.drop_last(), c)
    } else {
        s
    }
}

/// The position of the first `c` in `s`, or the length of `s`.
pub open spec fn first_at(s: Seq<char>, c: char) -> int
    decreases s.len(),
{
    if s.len() == 0 {
        0
    } else if s[0] == c {
        0
    } else {
        1 + first_at(s.drop_first(), c)
    }
}

/// The parts of `s` between the separators `c`: one more than there are separators.
pub open spec fn parts(s: Seq<char>, c: char) -> Seq<Seq<char>>
    decreases s.len(),
{
    if s.len() == 0 {
        seq![s]
    } else {
        let rest = parts(s.drop_last(), c);
        if s.last() == c {
            rest.push(Seq::<char>::empty())
        } else {
            rest.drop_last().push(rest.last().push(s.last()))
        }
    }
}

/// The words of `s`: its maximal runs without whitespace.
pub open spec fn words(s: Seq<char>) -> Seq<Seq<char>>
    decreases s.len(),
{
    if s.len() == 0 {
        Seq::empty()
    } else {
        let rest = words(s.drop_last());
        if whitespace(s.last()) {
            rest
        } else if s.len() >= 2 && !whitespace(s[s.len() - 2]) {
            rest.drop_last().push(rest.last().push(s.last()))
        } else {
            rest.push(seq![s.last()])
        }
    }
}

/// The texts in order with `sep` between them.
pub open spec fn joined(v: Seq<Seq<char>>, sep: Seq<char>) -> Seq<char>
    decreases v.len(),
{
    if v.len() == 0 {
        Seq::empty()
    } else if v.len() == 1 {
        v[0]
    } else {
        joined(v.drop_last(), sep) + sep + v.last()
    }
}

/// The decimal digits of `n`.
pub open spec fn decimal(n: nat) -> Seq<char>
    decreases n,
{
    if n < 10 {
        seq![digit_char(n)]
    } else {
        decimal(n / 10).push(digit_char(n % 10))
    }
}

pub open spec fn digit_char(n: nat) -> char {
    ((48 + n) as u8) as char
}

/// Lexicographic order by code point, which is also the order of the UTF-8 bytes.
pub open spec fn text_lt(a: Seq<char>, b: Seq<char>) -> bool
    decreases a.len(),
{
    if b.len() == 0 {
        false
    } else if a.len() == 0 {
        true
    } else if a[0] != b[0] {
        a[0] < b[0]
    } else {
        text_lt(a.drop_first(), b.drop_first())
    }
}

/// The characters of `s`.
pub fn chars_of(s: &str) -> (r: Vec<char>)
    ensures
        r@ == s@,
{
    let mut r: Vec<char> = Vec::new();
    for c in it: s.chars()
        invariant
            it.seq() == s@,
            r@ == s@.take(it.index()),
    {
        r.push(c);
        assert(r@ =~= s@.take(it.index() + 1));
    }
    assert(s@.take(s@.len() as int) =~= s@);
    r
}

/// The string that holds the characters `v`.
pub fn string_of(v: &Vec<char>) -> (r: String)
    ensures
        r@ == v@,
{
    let mut r = String::new();
    let mut i: usize = 0;
    while i < v.len()
        invariant
            i <= v.len(),
            r@ == v@.take(i as int),
        decreases v.len() - i,
    {
        r.push(v[i]);
        i = i + 1;
        assert(r@ =~= v@.take(i as int));
    }
    assert(v@.take(i as int) =~= v@);
    r
}

/// The string that holds `v[from..to]`.
pub fn slice_of(v: &Vec<char>, from: usize, to: usize) -> (r: String)
    requires
        from <= to <= v.len(),
    ensures
        r@ == v@.subrange(from as int, to as int),
{
    let mut r = String::new();
    let mut i: usize = from;
    while i < to
        invariant
            from <= i <= to <= v.len(),
            r@ == v@.subrange(from as int, i as int),
        decreases to - i,
    {
        r.push(v[i]);
        i = i + 1;
        assert(r@ =~= v@.subrange(from as int, i as int));
    }
    r
}

/// The length of `s` in bytes.
pub fn byte_len(s: &str) -> (r: usize)
    ensures
        r == byte_count(s@),
{
    s.as_bytes().len()
}

pub fn is_control(c: char) -> (r: bool)
    ensures
        r == control(c),
{
    c <= '\u{1f}' || ('\u{7f}' <= c && c <= '\u{9f}')
}

pub fn is_whitespace(c: char) -> (r: bool)
    ensures
        r == whitespace(c),
{
    ('\u{9}' <= c && c <= '\u{d}') || c == '\u{20}' || c == '\u{85}' || c == '\u{a0}' || c == '\u{1680}'
        || ('\u{2000}' <= c && c <= '\u{200a}') || c == '\u{2028}' || c == '\u{2029}' || c == '\u{202f}'
        || c == '\u{205f}' || c == '\u{3000}'
}

pub fn is_alphanumeric(c: char) -> (r: bool)
    ensures
        r == ascii_alphanumeric(c),
{
    ('0' <= c && c <= '9') || ('a' <= c && c <= 'z') || ('A' <= c && c <= 'Z')
}

pub fn has_control(s: &str) -> (r: bool)
    ensures
        r == some_control(s@),
{
    let v = chars_of(s);
    let mut i: usize = 0;
    while i < v.len()
        invariant
            i <= v.len(),
            v@ == s@,
            forall|j: int| 0 <= j < i ==> !#[trigger] control(s@[j]),
        decreases v.len() - i,
    {
        if is_control(v[i]) {
            assert(control(s@[i as int]));
            return true;
        }
        i = i + 1;
    }
    false
}

pub fn has_whitespace(s: &str) -> (r: bool)
    ensures
        r == some_whitespace(s@),
{
    let v = chars_of(s);
    let mut i: usize = 0;
    while i < v.len()
        invariant
            i <= v.len(),
            v@ == s@,
            forall|j: int| 0 <= j < i ==> !#[trigger] whitespace(s@[j]),
        decreases v.len() - i,
    {
        if is_whitespace(v[i]) {
            assert(whitespace(s@[i as int]));
            return true;
        }
        i = i + 1;
    }
    false
}

pub fn is_graphic(s: &str) -> (r: bool)
    ensures
        r == all_graphic(s@),
{
    let v = chars_of(s);
    let mut i: usize = 0;
    while i < v.len()
        invariant
            i <= v.len(),
            v@ == s@,
            forall|j: int| 0 <= j < i ==> #[trigger] ascii_graphic(s@[j]),
        decreases v.len() - i,
    {
        if !('!' <= v[i] && v[i] <= '~') {
            assert(!ascii_graphic(s@[i as int]));
            return false;
        }
        i = i + 1;
    }
    true
}

pub fn has_char(s: &str, c: char) -> (r: bool)
    ensures
        r == s@.contains(c),
{
    let v = chars_of(s);
    let mut i: usize = 0;
    while i < v.len()
        invariant
            i <= v.len(),
            v@ == s@,
            forall|j: int| 0 <= j < i ==> s@[j] != c,
        decreases v.len() - i,
    {
        if v[i] == c {
            return true;
        }
        i = i + 1;
    }
    false
}

/// Whether `v` holds `p` at position `at`.
fn matches_at(v: &Vec<char>, p: &Vec<char>, at: usize) -> (r: bool)
    requires
        at + p.len() <= v.len(),
    ensures
        r == (v@.subrange(at as int, at + p@.len()) == p@),
{
    let mut i: usize = 0;
    while i < p.len()
        invariant
            i <= p.len(),
            at + p.len() <= v.len(),
            forall|j: int| 0 <= j < i ==> v@[at + j] == p@[j],
        decreases p.len() - i,
    {
        if v[at + i] != p[i] {
            assert(v@.subrange(at as int, at + p@.len())[i as int] != p@[i as int]);
            return false;
        }
        i = i + 1;
    }
    assert(v@.subrange(at as int, at + p@.len()) =~= p@);
    true
}

pub fn starts_with(s: &str, p: &str) -> (r: bool)
    ensures
        r == has_prefix(s@, p@),
{
    let v = chars_of(s);
    let w = chars_of(p);
    if w.len() > v.len() {
        return false;
    }
    assert(s@.take(p@.len() as int) =~= s@.subrange(0, p@.len() as int));
    matches_at(&v, &w, 0)
}

pub fn ends_with(s: &str, p: &str) -> (r: bool)
    ensures
        r == has_suffix(s@, p@),
{
    let v = chars_of(s);
    let w = chars_of(p);
    if w.len() > v.len() {
        return false;
    }
    assert(s@.skip(s@.len() - p@.len()) =~= s@.subrange(s@.len() - p@.len(), s@.len() as int));
    matches_at(&v, &w, v.len() - w.len())
}

/// What follows the prefix `p` in `s`.
pub fn strip_prefix(s: &str, p: &str) -> (r: Option<String>)
    ensures
        r is Some == has_prefix(s@, p@),
        r matches Some(t) ==> t@ == s@.skip(p@.len() as int),
{
    let v = chars_of(s);
    let w = chars_of(p);
    if w.len() > v.len() {
        return None;
    }
    assert(s@.take(p@.len() as int) =~= s@.subrange(0, p@.len() as int));
    if !matches_at(&v, &w, 0) {
        return None;
    }
    assert(s@.skip(p@.len() as int) =~= s@.subrange(p@.len() as int, s@.len() as int));
    Some(slice_of(&v, w.len(), v.len()))
}

pub fn contains(s: &str, p: &str) -> (r: bool)
    ensures
        r == contains_text(s@, p@),
{
    let v = chars_of(s);
    let w = chars_of(p);
    if w.len() > v.len() {
        return false;
    }
    let last: usize = v.len() - w.len();
    let mut i: usize = 0;
    while i <= last
        invariant
            i <= last + 1,
            last == s@.len() - p@.len(),
            v@ == s@,
            w@ == p@,
            forall|j: int| 0 <= j < i ==> !occurs_at(s@, p@, j),
        decreases last + 1 - i,
    {
        if matches_at(&v, &w, i) {
            assert(occurs_at(s@, p@, i as int));
            return true;
        }
        assert(!occurs_at(s@, p@, i as int));
        if i == last {
            return false;
        }
        i = i + 1;
    }
    false
}

/// `s` without the whitespace around it.
pub fn trim(s: &str) -> (r: String)
    ensures
        r@ == trimmed(s@),
{
    let v = chars_of(s);
    let mut a: usize = 0;
    assert(s@.skip(0) =~= s@);
    while a < v.len() && is_whitespace(v[a])
        invariant
            a <= v.len(),
            v@ == s@,
            trim_start(s@) == trim_start(s@.skip(a as int)),
        decreases v.len() - a,
    {
        assert(s@.skip(a as int).drop_first() =~= s@.skip(a + 1));
        a = a + 1;
    }
    let ghost rest = s@.skip(a as int);
    assert(trim_start(s@) == rest);
    let mut b: usize = v.len();
    assert(rest =~= s@.subrange(a as int, b as int));
    while a < b && is_whitespace(v[b - 1])
        invariant
            a <= b <= v.len(),
            v@ == s@,
            trim_end(rest) == trim_end(s@.subrange(a as int, b as int)),
        decreases b,
    {
        assert(s@.subrange(a as int, b as int).drop_last() =~= s@.subrange(a as int, b - 1));
        b = b - 1;
    }
    slice_of(&v, a, b)
}

/// `s` without the characters `c` at its end.
pub fn trim_end_of(s: &str, c: char) -> (r: String)
    ensures
        r@ == trim_end_char(s@, c),
{
    let v = chars_of(s);
    let mut b: usize = v.len();
    assert(s@ =~= s@.subrange(0, b as int));
    while 0 < b && v[b - 1] == c
        invariant
            b <= v.len(),
            v@ == s@,
            trim_end_char(s@, c) == trim_end_char(s@.subrange(0, b as int), c),
        decreases b,
    {
        assert(s@.subrange(0, b as int).drop_last() =~= s@.subrange(0, b - 1));
        b = b - 1;
    }
    slice_of(&v, 0, b)
}

pub fn lowercase(s: &str) -> (r: String)
    ensures
        r@ == lower(s@),
{
    let v = chars_of(s);
    let mut r = String::new();
    let mut i: usize = 0;
    while i < v.len()
        invariant
            i <= v.len(),
            v@ == s@,
            r@ == lower(s@.take(i as int)),
        decreases v.len() - i,
    {
        let c = v[i];
        let d: char = if 'A' <= c && c <= 'Z' {
            ((c as u32 + 32) as u8) as char
        } else {
            c
        };
        r.push(d);
        i = i + 1;
        assert(r@ =~= lower(s@.take(i as int)));
    }
    assert(s@.take(i as int) =~= s@);
    r
}

/// Equality that takes ASCII letters of either case as the same.
pub fn same_ignoring_case(a: &str, b: &str) -> (r: bool)
    ensures
        r == (lower(a@) == lower(b@)),
{
    let x = lowercase(a);
    let y = lowercase(b);
    same(x.as_str(), y.as_str())
}

proof fn lemma_first_at(s: Seq<char>, c: char, i: int)
    requires
        0 <= i <= s.len(),
        forall|j: int| 0 <= j < i ==> s[j] != c,
        i == s.len() || s[i] == c,
    ensures
        first_at(s, c) == i,
    decreases s.len(),
{
    if s.len() > 0 && s[0] != c {
        lemma_first_at(s.drop_first(), c, i - 1);
    }
}

/// The parts of `s` before and after its first `c`.
pub fn split_once(s: &str, c: char) -> (r: Option<(String, String)>)
    ensures
        r is Some == (first_at(s@, c) < s@.len()),
        r matches Some(p) ==> p.0@ == s@.take(first_at(s@, c)) && p.1@ == s@.skip(
            first_at(s@, c) + 1,
        ),
{
    let v = chars_of(s);
    let mut i: usize = 0;
    while i < v.len()
        invariant
            i <= v.len(),
            v@ == s@,
            forall|j: int| 0 <= j < i ==> s@[j] != c,
        decreases v.len() - i,
    {
        if v[i] == c {
            proof {
                lemma_first_at(s@, c, i as int);
                assert(s@.take(i as int) =~= s@.subrange(0, i as int));
                assert(s@.skip(i + 1) =~= s@.subrange(i + 1, s@.len() as int));
            }
            return Some((slice_of(&v, 0, i), slice_of(&v, i + 1, v.len())));
        }
        i = i + 1;
    }
    proof {
        lemma_first_at(s@, c, s@.len() as int);
    }
    None
}

/// The parts of `s` between the separators `c`.
pub fn split(s: &str, c: char) -> (r: Vec<String>)
    ensures
        texts(r@) == parts(s@, c),
        r.len() >= 1,
{
    let v = chars_of(s);
    let mut r: Vec<String> = Vec::new();
    let mut cur = String::new();
    let mut i: usize = 0;
    assert(s@.take(0) =~= Seq::<char>::empty());
    assert(texts(r@).push(cur@) =~= parts(s@.take(0), c));
    while i < v.len()
        invariant
            i <= v.len(),
            v@ == s@,
            texts(r@).push(cur@) == parts(s@.take(i as int), c),
        decreases v.len() - i,
    {
        let ghost before = texts(r@);
        proof {
            assert(s@.take(i + 1).drop_last() =~= s@.take(i as int));
        }
        if v[i] == c {
            r.push(cur);
            cur = String::new();
            assert(texts(r@) =~= parts(s@.take(i as int), c));
            assert(cur@ =~= Seq::<char>::empty());
        } else {
            let ghost was = cur@;
            cur.push(v[i]);
            assert(before.push(was).drop_last() =~= before);
        }
        i = i + 1;
    }
    r.push(cur);
    assert(s@.take(i as int) =~= s@);
    assert(texts(r@) =~= parts(s@, c));
    r
}

/// The words of `s`.
pub fn split_words(s: &str) -> (r: Vec<String>)
    ensures
        texts(r@) == words(s@),
{
    let v = chars_of(s);
    let mut r: Vec<String> = Vec::new();
    let mut cur = String::new();
    let mut i: usize = 0;
    assert(s@.take(0) =~= Seq::<char>::empty());
    assert(texts(r@) =~= words(s@.take(0)));
    while i < v.len()
        invariant
            i <= v.len(),
            v@ == s@,
            (cur@.len() > 0) == (i > 0 && !whitespace(s@[i - 1])),
            words(s@.take(i as int)) == if cur@.len() > 0 {
                texts(r@).push(cur@)
            } else {
                texts(r@)
            },
        decreases v.len() - i,
    {
        let ghost before = texts(r@);
        let ghost was = cur@;
        proof {
            assert(s@.take(i + 1).drop_last() =~= s@.take(i as int));
            assert(s@.take(i + 1).last() == s@[i as int]);
            if i > 0 {
                assert(s@.take(i + 1)[i - 1] == s@[i - 1]);
            }
        }
        if is_whitespace(v[i]) {
            if cur.as_str().unicode_len() > 0 {
                r.push(cur);
                cur = String::new();
                assert(texts(r@) =~= before.push(was));
            }
        } else {
            cur.push(v[i]);
            assert(before.push(was).drop_last() =~= before);
            assert(Seq::<char>::empty().push(s@[i as int]) =~= seq![s@[i as int]]);
            proof {
                if was.len() == 0 {
                    assert(was =~= Seq::<char>::empty());
                }
            }
        }
        i = i + 1;
    }
    let ghost before = texts(r@);
    assert(s@.take(i as int) =~= s@);
    if cur.as_str().unicode_len() > 0 {
        let ghost was = cur@;
        r.push(cur);
        assert(texts(r@) =~= before.push(was));
    }
    r
}

/// The texts in order with `sep` between them.
pub fn join(v: &Vec<String>, sep: &str) -> (r: String)
    ensures
        r@ == joined(texts(v@), sep@),
{
    let mut r = String::new();
    let mut i: usize = 0;
    assert(texts(v@).take(0) =~= Seq::<Seq<char>>::empty());
    assert(r@ =~= joined(texts(v@).take(0), sep@));
    while i < v.len()
        invariant
            i <= v.len(),
            r@ == joined(texts(v@).take(i as int), sep@),
        decreases v.len() - i,
    {
        proof {
            let next = texts(v@).take(i + 1);
            assert(next.drop_last() =~= texts(v@).take(i as int));
            assert(next.last() == v@[i as int]@);
            if i == 0 {
                assert(next[0] == v@[0]@);
            }
        }
        if i == 0 {
            r = v[i].clone();
        } else {
            r.append(sep);
            r.append(v[i].as_str());
        }
        i = i + 1;
    }
    assert(texts(v@).take(i as int) =~= texts(v@));
    r
}

/// `n` in decimal.
pub fn decimal_text(n: u64) -> (r: String)
    ensures
        r@ == decimal(n as nat),
    decreases n,
{
    if n < 10 {
        let mut r = String::new();
        r.push(((48 + n) as u8) as char);
        assert(r@ =~= decimal(n as nat));
        r
    } else {
        let mut r = decimal_text(n / 10);
        r.push(((48 + n % 10) as u8) as char);
        r
    }
}

/// Whether `a` comes before `b` by code points.
pub fn before(a: &str, b: &str) -> (r: bool)
    ensures
        r == text_lt(a@, b@),
{
    let x = chars_of(a);
    let y = chars_of(b);
    let mut i: usize = 0;
    assert(a@.skip(0) =~= a@);
    assert(b@.skip(0) =~= b@);
    while i < x.len() && i < y.len()
        invariant
            i <= x.len(),
            i <= y.len(),
            x@ == a@,
            y@ == b@,
            text_lt(a@, b@) == text_lt(a@.skip(i as int), b@.skip(i as int)),
        decreases x.len() - i,
    {
        if x[i] != y[i] {
            return x[i] < y[i];
        }
        proof {
            assert(a@.skip(i as int).drop_first() =~= a@.skip(i + 1));
            assert(b@.skip(i as int).drop_first() =~= b@.skip(i + 1));
        }
        i = i + 1;
    }
    i < y.len()
}

/// Whether one of the texts in `v` is `s`.
pub fn among(s: &str, v: &Vec<String>) -> (r: bool)
    ensures
        r == texts(v@).contains(s@),
{
    let mut i: usize = 0;
    while i < v.len()
        invariant
            i <= v.len(),
            forall|j: int| 0 <= j < i ==> v@[j]@ != s@,
        decreases v.len() - i,
    {
        if same(v[i].as_str(), s) {
            assert(texts(v@)[i as int] == s@);
            return true;
        }
        i = i + 1;
    }
    assert forall|j: int| 0 <= j < texts(v@).len() implies texts(v@)[j] != s@ by {
        assert(texts(v@)[j] == v@[j]@);
    }
    false
}

/// The characters of `a` followed by those of `b`.
pub fn concat(a: &str, b: &str) -> (r: String)
    ensures
        r@ == a@ + b@,
{
    let mut r = a.to_owned();
    r.append(b);
    r
}

/// The characters of `a`, `b` and `c` in a row.
pub fn concat3(a: &str, b: &str, c: &str) -> (r: String)
    ensures
        r@ == a@ + b@ + c@,
{
    let mut r = a.to_owned();
    r.append(b);
    r.append(c);
    r
}

/// A copy of a list of strings.
pub fn copy_list(v: &Vec<String>) -> (r: Vec<String>)
    ensures
        r@ == v@,
{
    let mut r: Vec<String> = Vec::new();
    let mut i: usize = 0;
    while i < v.len()
        invariant
            i <= v.len(),
            r@ == v@.take(i as int),
        decreases v.len() - i,
    {
        r.push(v[i].clone());
        i = i + 1;
        assert(r@ =~= v@.take(i as int));
    }
    assert(v@.take(i as int) =~= v@);
    r
}

/// A copy of a list of bytes.
pub fn copy_bytes(v: &Vec<u8>) -> (r: Vec<u8>)
    ensures
        r@ == v@,
{
    let mut r: Vec<u8> = Vec::new();
    let mut i: usize = 0;
    while i < v.len()
        invariant
            i <= v.len(),
            r@ == v@.take(i as int),
        decreases v.len() - i,
    {
        r.push(v[i]);
        i = i + 1;
        assert(r@ =~= v@.take(i as int));
    }
    assert(v@.take(i as int) =~= v@);
    r
}

/// A copy of an optional string.
pub fn copy_opt(o: &Option<String>) -> (r: Option<String>)
    ensures
        r == *o,
{
    match o {
        Some(s) => Some(s.clone()),
        None => None,
    }
}

/// Whether an optional string holds the text `s`.
pub fn opt_is(o: &Option<String>, s: &str) -> (r: bool)
    ensures
        r == (opt_text(*o) == Some(s@)),
{
    match o {
        Some(t) => same(t.as_str(), s),
        None => false,
    }
}

/// Whether two optional strings hold the same text, or neither holds one.
pub fn same_opt(a: &Option<String>, b: &Option<String>) -> (r: bool)
    ensures
        r == (opt_text(*a) == opt_text(*b)),
{
    match (a, b) {
        (Some(x), Some(y)) => same(x.as_str(), y.as_str()),
        (None, None) => true,
        _ => false,
    }
}

pub open spec fn is_digit(c: char) -> bool {
    '0' <= c <= '9'
}

/// The number that decimal digits write.
pub open spec fn digits_value(s: Seq<char>) -> nat
    decreases s.len(),
{
    if s.len() == 0 {
        0
    } else {
        (10 * digits_value(s.drop_last()) + (s.last() as u32 - 48)) as nat
    }
}

pub open spec fn all_digits(d: Seq<char>) -> bool {
    forall|i: int| 0 <= i < d.len() ==> is_digit(#[trigger] d[i])
}

/// The text after a plus sign.
pub open spec fn unsigned_part(s: Seq<char>) -> Seq<char> {
    if s.len() > 0 && s[0] == '+' {
        s.skip(1)
    } else {
        s
    }
}

/// The number that a text writes: decimal digits, perhaps after a plus sign.
pub open spec fn number_in(s: Seq<char>) -> Option<u64> {
    let d = unsigned_part(s);
    if d.len() > 0 && all_digits(d) && digits_value(d) <= u64::MAX {
        Some(digits_value(d) as u64)
    } else {
        None
    }
}

proof fn lemma_digits_grow(s: Seq<char>, n: int)
    requires
        0 <= n <= s.len(),
        all_digits(s),
    ensures
        digits_value(s.take(n)) <= digits_value(s),
    decreases s.len() - n,
{
    if n < s.len() {
        assert(s.take(n + 1).drop_last() =~= s.take(n));
        assert(is_digit(s[n]));
        assert(s.take(n + 1).last() == s[n]);
        lemma_digits_grow(s, n + 1);
    } else {
        assert(s.take(n) =~= s);
    }
}

/// Reads a number.
#[verifier::loop_isolation(false)]
pub fn parse_number(s: &str) -> (r: Option<u64>)
    ensures
        r == number_in(s@),
{
    let v = chars_of(s);
    let start: usize = if v.len() > 0 && v[0] == '+' {
        1
    } else {
        0
    };
    let ghost d = unsigned_part(s@);
    assert(d =~= v@.skip(start as int));
    if start == v.len() {
        return None;
    }
    let mut n: u64 = 0;
    let mut i: usize = start;
    while i < v.len()
        invariant
            start <= i <= v.len(),
            v@ == s@,
            d == v@.skip(start as int),
            d.len() == v.len() - start,
            forall|j: int| 0 <= j < i - start ==> is_digit(#[trigger] d[j]),
            n == digits_value(d.take(i - start)),
        decreases v.len() - i,
    {
        let c = v[i];
        assert(d[i - start] == c);
        proof {
            assert(d.take(i - start + 1).drop_last() =~= d.take(i - start));
            assert(d.take(i - start + 1).last() == c);
        }
        if !('0' <= c && c <= '9') {
            assert(!is_digit(d[i - start]));
            return None;
        }
        let digit: u64 = (c as u32 - 48) as u64;
        if n > (u64::MAX - digit) / 10 {
            proof {
                if all_digits(d) {
                    lemma_digits_grow(d, i - start + 1);
                }
            }
            return None;
        }
        n = 10 * n + digit;
        i = i + 1;
    }
    assert(d.take(d.len() as int) =~= d);
    Some(n)
}

/// Whether two lists hold the same texts in the same order.
pub fn same_list(a: &Vec<String>, b: &Vec<String>) -> (r: bool)
    ensures
        r == (texts(a@) == texts(b@)),
{
    let ghost x = texts(a@);
    let ghost y = texts(b@);
    assert(x.len() == a.len());
    assert(y.len() == b.len());
    if a.len() != b.len() {
        return false;
    }
    let mut i: usize = 0;
    while i < a.len()
        invariant
            i <= a.len(),
            a.len() == b.len(),
            x == texts(a@),
            y == texts(b@),
            forall|j: int| 0 <= j < i ==> #[trigger] x[j] == y[j],
        decreases a.len() - i,
    {
        assert(x[i as int] == a[i as int]@);
        assert(y[i as int] == b[i as int]@);
        if !same(a[i].as_str(), b[i].as_str()) {
            assert(x[i as int] != y[i as int]);
            return false;
        }
        i = i + 1;
    }
    assert(x =~= y);
    true
}

/// Where a character stands first is within the text, or just behind it.
pub proof fn lemma_first_at_range(s: Seq<char>, c: char)
    ensures
        0 <= first_at(s, c) <= s.len(),
    decreases s.len(),
{
    if s.len() > 0 && s[0] != c {
        lemma_first_at_range(s.drop_first(), c);
    }
}

/// Fixed texts as a list of strings.
pub fn text_list(a: &Vec<&'static str>) -> (r: Vec<String>)
    ensures
        texts(r@) == a@.map_values(|s: &'static str| s@),
{
    let ghost want = a@.map_values(|s: &'static str| s@);
    let mut out: Vec<String> = Vec::new();
    let mut i: usize = 0;
    assert(texts(out@) =~= want.take(0));
    while i < a.len()
        invariant
            i <= a.len(),
            want == a@.map_values(|s: &'static str| s@),
            texts(out@) == want.take(i as int),
        decreases a.len() - i,
    {
        let ghost was = texts(out@);
        out.push(a[i].to_owned());
        assert(texts(out@) =~= was.push(want[i as int]));
        assert(want.take(i + 1) =~= want.take(i as int).push(want[i as int]));
        i = i + 1;
    }
    assert(want.take(i as int) =~= want);
    out
}

/// What is found is the first place of the character, and its absence is told by the length.
pub proof fn the_first_place_is_found(s: Seq<char>, c: char)
    ensures
        0 <= first_at(s, c) <= s.len(),
        first_at(s, c) < s.len() ==> s[first_at(s, c)] == c,
        forall|i: int| 0 <= i < first_at(s, c) ==> #[trigger] s[i] != c,
    decreases s.len(),
{
    if s.len() > 0 && s[0] != c {
        let t = s.drop_first();
        the_first_place_is_found(t, c);
        assert forall|i: int| 0 <= i < first_at(s, c) implies #[trigger] s[i] != c by {
            if i > 0 {
                assert(t[i - 1] == s[i]);
            }
        }
    }
}

/// A text begins with another if it has the other's characters first, and ends with it if it has
/// them last.
pub proof fn ends_are_told_by_their_characters(s: Seq<char>, p: Seq<char>)
    ensures
        has_prefix(s, p) <==> p.len() <= s.len() && forall|i: int| 0 <= i < p.len() ==> #[trigger] s[i] == p[i],
        has_suffix(s, p) <==> p.len() <= s.len() && forall|i: int|
            0 <= i < p.len() ==> s[s.len() - p.len() + i] == #[trigger] p[i],
        has_prefix(p + s, p),
        has_suffix(s + p, p),
        contains_text(s, p) <==> exists|a: Seq<char>, b: Seq<char>| s == #[trigger] (a + p + b),
{
    if p.len() <= s.len() {
        let h = s.take(p.len() as int);
        let t = s.skip(s.len() - p.len());
        if forall|i: int| 0 <= i < p.len() ==> #[trigger] s[i] == p[i] {
            assert(h =~= p);
        }
        if has_prefix(s, p) {
            assert forall|i: int| 0 <= i < p.len() implies #[trigger] s[i] == p[i] by {
                assert(h[i] == s[i]);
            }
        }
        if forall|i: int| 0 <= i < p.len() ==> s[s.len() - p.len() + i] == #[trigger] p[i] {
            assert(t =~= p);
        }
        if has_suffix(s, p) {
            assert forall|i: int| 0 <= i < p.len() implies s[s.len() - p.len() + i] == #[trigger] p[i] by {
                assert(t[i] == s[s.len() - p.len() + i]);
            }
        }
    }
    assert((p + s).take(p.len() as int) =~= p);
    assert((s + p).skip((s + p).len() - p.len()) =~= p);
    if contains_text(s, p) {
        let i = choose|i: int| #[trigger] occurs_at(s, p, i);
        assert(s =~= s.take(i) + p + s.skip(i + p.len()));
    }
    if exists|a: Seq<char>, b: Seq<char>| s == #[trigger] (a + p + b) {
        let (a, b) = choose|a: Seq<char>, b: Seq<char>| s == #[trigger] (a + p + b);
        assert(s.subrange(a.len() as int, (a.len() + p.len()) as int) =~= p);
        assert(occurs_at(s, p, a.len() as int));
    }
}

proof fn lemma_trim_start(s: Seq<char>) -> (a: int)
    ensures
        0 <= a <= s.len(),
        trim_start(s) == s.skip(a),
        forall|i: int| 0 <= i < a ==> whitespace(#[trigger] s[i]),
        a < s.len() ==> !whitespace(s[a]),
    decreases s.len(),
{
    if s.len() > 0 && whitespace(s[0]) {
        let t = s.drop_first();
        let a = lemma_trim_start(t);
        assert(t.skip(a) =~= s.skip(a + 1));
        assert forall|i: int| 0 <= i < a + 1 implies whitespace(#[trigger] s[i]) by {
            if i > 0 {
                assert(t[i - 1] == s[i]);
            }
        }
        a + 1
    } else {
        assert(s.skip(0) =~= s);
        0
    }
}

proof fn lemma_trim_end(s: Seq<char>) -> (b: int)
    ensures
        0 <= b <= s.len(),
        trim_end(s) == s.take(b),
        forall|i: int| b <= i < s.len() ==> whitespace(#[trigger] s[i]),
        b > 0 ==> !whitespace(s[b - 1]),
    decreases s.len(),
{
    if s.len() > 0 && whitespace(s.last()) {
        let t = s.drop_last();
        let b = lemma_trim_end(t);
        assert(t.take(b) =~= s.take(b));
        assert forall|i: int| b <= i < s.len() implies whitespace(#[trigger] s[i]) by {
            if i < t.len() {
                assert(t[i] == s[i]);
            }
        }
        b
    } else {
        assert(s.take(s.len() as int) =~= s);
        s.len() as int
    }
}

/// Trimming takes away blanks at both ends and nothing else: what stays neither begins nor ends with
/// one.
pub proof fn trimming_takes_the_blanks_at_the_ends(s: Seq<char>)
    ensures
        ({
            let t = trimmed(s);
            &&& t.len() > 0 ==> !whitespace(t[0]) && !whitespace(t.last())
            &&& exists|a: int, b: int|
                0 <= a <= b <= s.len() && t == #[trigger] s.subrange(a, b) && (forall|i: int|
                    (0 <= i < a || b <= i < s.len()) ==> whitespace(#[trigger] s[i]))
        }),
{
    let a = lemma_trim_start(s);
    let u = trim_start(s);
    let n = lemma_trim_end(u);
    let b = a + n;
    assert(trimmed(s) =~= s.subrange(a, b));
    assert forall|i: int| (0 <= i < a || b <= i < s.len()) implies whitespace(#[trigger] s[i]) by {
        if b <= i {
            assert(u[i - a] == s[i]);
        }
    }
    if n > 0 {
        assert(u[0] == s[a]);
        assert(u[n - 1] == s[b - 1]);
    }
}

/// Trimming by one character takes it away at the end and nowhere else.
pub proof fn one_character_is_trimmed_at_the_end(s: Seq<char>, c: char)
    ensures
        ({
            let t = trim_end_char(s, c);
            &&& t.len() <= s.len()
            &&& t == s.take(t.len() as int)
            &&& t.len() > 0 ==> t.last() != c
            &&& forall|i: int| t.len() <= i < s.len() ==> #[trigger] s[i] == c
        }),
    decreases s.len(),
{
    if s.len() > 0 && s.last() == c {
        let w = s.drop_last();
        one_character_is_trimmed_at_the_end(w, c);
        let t = trim_end_char(w, c);
        assert(w.take(t.len() as int) =~= s.take(t.len() as int));
        assert forall|i: int| t.len() <= i < s.len() implies #[trigger] s[i] == c by {
            if i < w.len() {
                assert(w[i] == s[i]);
            }
        }
    } else {
        assert(s.take(s.len() as int) =~= s);
    }
}

/// Joining the parts of a text gives the text back, and no part holds the separator.
pub proof fn parts_make_up_the_text(s: Seq<char>, c: char)
    ensures
        parts(s, c).len() >= 1,
        forall|i: int| 0 <= i < parts(s, c).len() ==> !(#[trigger] parts(s, c)[i]).contains(c),
        joined(parts(s, c), seq![c]) == s,
    decreases s.len(),
{
    reveal_with_fuel(joined, 2);
    if s.len() > 0 {
        let w = s.drop_last();
        parts_make_up_the_text(w, c);
        let rest = parts(w, c);
        let all = parts(s, c);
        assert(w.push(s.last()) =~= s);
        if s.last() == c {
            assert(all.drop_last() =~= rest);
            assert(joined(all, seq![c]) =~= w + seq![c] + Seq::<char>::empty());
            assert(w + seq![c] + Seq::<char>::empty() =~= s);
            assert forall|i: int| 0 <= i < all.len() implies !(#[trigger] all[i]).contains(c) by {
                if i < rest.len() {
                    assert(all[i] == rest[i]);
                }
            }
        } else {
            assert(all.drop_last() =~= rest.drop_last());
            assert(all.last() == rest.last().push(s.last()));
            if rest.len() == 1 {
                assert(joined(all, seq![c]) == all[0]);
                assert(joined(rest, seq![c]) == rest[0]);
                assert(rest.last() == rest[0]);
            } else {
                assert(joined(all, seq![c]) == joined(all.drop_last(), seq![c]) + seq![c] + all.last());
                assert(joined(rest, seq![c]) == joined(rest.drop_last(), seq![c]) + seq![c] + rest.last());
            }
            assert(joined(all, seq![c]) =~= s);
            assert forall|i: int| 0 <= i < all.len() implies !(#[trigger] all[i]).contains(c) by {
                if i < rest.len() - 1 {
                    assert(all[i] == rest[i]);
                } else {
                    let x = rest.last();
                    assert(!rest[rest.len() - 1].contains(c));
                    assert forall|j: int| 0 <= j < all[i].len() implies all[i][j] != c by {
                        if j < x.len() {
                            assert(x[j] == all[i][j]);
                        }
                    }
                }
            }
        }
    } else {
        assert(parts(s, c) =~= seq![s]);
    }
}

/// A list is joined from left to right, with the separator between every two items.
pub proof fn lists_are_joined_in_order(u: Seq<Seq<char>>, v: Seq<Seq<char>>, sep: Seq<char>)
    requires
        u.len() > 0,
        v.len() > 0,
    ensures
        joined(u + v, sep) == joined(u, sep) + sep + joined(v, sep),
        v.len() == 1 ==> joined(v, sep) == v[0],
    decreases v.len(),
{
    reveal_with_fuel(joined, 2);
    assert((u + v).drop_last() =~= u + v.drop_last());
    assert((u + v).last() == v.last());
    if v.len() > 1 {
        lists_are_joined_in_order(u, v.drop_last(), sep);
        assert(joined(u + v, sep) =~= joined(u, sep) + sep + joined(v, sep));
    } else {
        assert(u + v.drop_last() =~= u);
    }
}

/// The words are what stands between blanks: a text without blanks is one word, and the words of two
/// texts with a blank between them are those of the one and then those of the other.
pub proof fn words_stand_between_blanks(a: Seq<char>, c: char, b: Seq<char>)
    requires
        whitespace(c),
    ensures
        words(a.push(c) + b) == words(a) + words(b),
        a.len() == 0 ==> words(a) == Seq::<Seq<char>>::empty(),
        a.len() > 0 && !some_whitespace(a) ==> words(a) == seq![a],
    decreases b.len(),
{
    lemma_one_word(a);
    let s = a.push(c) + b;
    if b.len() == 0 {
        assert(s =~= a.push(c));
        assert(s.drop_last() =~= a);
        assert(words(a) + words(b) =~= words(a));
    } else {
        let w = b.drop_last();
        words_stand_between_blanks(a, c, w);
        assert(s.drop_last() =~= a.push(c) + w);
        assert(s.last() == b.last());
        if !whitespace(b.last()) {
            if b.len() >= 2 {
                assert(s[s.len() - 2] == b[b.len() - 2]);
                if !whitespace(b[b.len() - 2]) {
                    lemma_some_word(w);
                    assert((words(a) + words(w)).drop_last() =~= words(a) + words(w).drop_last());
                    assert((words(a) + words(w)).last() == words(w).last());
                }
            } else {
                assert(s[s.len() - 2] == c);
                assert(words(w) =~= Seq::<Seq<char>>::empty());
            }
        }
        assert(words(s) =~= words(a) + words(b));
    }
}

proof fn lemma_some_word(s: Seq<char>)
    requires
        s.len() > 0,
        !whitespace(s.last()),
    ensures
        words(s).len() > 0,
{
}

proof fn lemma_one_word(a: Seq<char>)
    requires
        true,
    ensures
        a.len() > 0 && !some_whitespace(a) ==> words(a) == seq![a],
    decreases a.len(),
{
    if a.len() > 0 && !some_whitespace(a) {
        assert(!whitespace(a[a.len() - 1]));
        let w = a.drop_last();
        if w.len() > 0 {
            assert(!whitespace(a[a.len() - 2]));
            if some_whitespace(w) {
                let i = choose|i: int| 0 <= i < w.len() && #[trigger] whitespace(w[i]);
                assert(whitespace(a[i]));
            }
            lemma_one_word(w);
            assert(words(w).drop_last() =~= Seq::<Seq<char>>::empty());
            assert(w.push(a.last()) =~= a);
            assert(words(a) =~= seq![a]);
        } else {
            assert(words(w) =~= Seq::<Seq<char>>::empty());
            assert(seq![a.last()] =~= a);
            assert(words(a) =~= seq![a]);
        }
    }
}

proof fn lemma_written_digits(n: nat)
    ensures
        decimal(n).len() > 0,
        all_digits(decimal(n)),
        digits_value(decimal(n)) == n,
    decreases n,
{
    reveal_with_fuel(digits_value, 2);
    let d = decimal(n);
    if n < 10 {
        assert(d.drop_last() =~= Seq::<char>::empty());
        assert(d.last() as u32 == 48 + n);
    } else {
        lemma_written_digits(n / 10);
        assert(d.drop_last() =~= decimal(n / 10));
        assert(d.last() == digit_char(n % 10));
        assert(d.last() as u32 == 48 + n % 10);
        assert forall|i: int| 0 <= i < d.len() implies is_digit(#[trigger] d[i]) by {
            if i < d.len() - 1 {
                assert(d[i] == decimal(n / 10)[i]);
            }
        }
    }
}

/// A number that was written out is read back, with a sign in front or without, and a text with
/// anything but digits in it is no number.
pub proof fn written_numbers_are_read_back(n: u64, s: Seq<char>)
    ensures
        number_in(decimal(n as nat)) == Some(n),
        number_in(seq!['+'] + decimal(n as nat)) == Some(n),
        s.len() == 0 ==> number_in(s) is None,
        (exists|i: int| 1 <= i < s.len() && !('0' <= #[trigger] s[i] <= '9')) ==> number_in(s) is None,
{
    lemma_written_digits(n as nat);
    let d = decimal(n as nat);
    assert(is_digit(d[0]));
    assert((seq!['+'] + d).skip(1) =~= d);
    if exists|i: int| 1 <= i < s.len() && !('0' <= #[trigger] s[i] <= '9') {
        let i = choose|i: int| 1 <= i < s.len() && !('0' <= #[trigger] s[i] <= '9');
        let u = unsigned_part(s);
        let j = if s[0] == '+' {
            i - 1
        } else {
            i
        };
        assert(u[j] == s[i]);
        assert(!is_digit(u[j]));
    }
}

/// Texts are ordered by the first character in which they differ; one that begins another comes
/// before it.
pub proof fn texts_are_ordered_by_their_first_difference(a: Seq<char>, b: Seq<char>, i: int)
    requires
        0 <= i <= a.len(),
        i <= b.len(),
        forall|j: int| 0 <= j < i ==> a[j] == #[trigger] b[j],
        i < a.len() && i < b.len() ==> a[i] != b[i],
    ensures
        text_lt(a, b) <==> i < b.len() && (i == a.len() || a[i] < b[i]),
    decreases i,
{
    if i > 0 {
        assert(a[0] == b[0]);
        let x = a.drop_first();
        let y = b.drop_first();
        assert forall|j: int| 0 <= j < i - 1 implies x[j] == #[trigger] y[j] by {
            assert(a[j + 1] == b[j + 1]);
        }
        if i < a.len() && i < b.len() {
            assert(x[i - 1] == a[i] && y[i - 1] == b[i]);
        }
        texts_are_ordered_by_their_first_difference(x, y, i - 1);
        if i < a.len() && i < b.len() {
            assert(x[i - 1] == a[i] && y[i - 1] == b[i]);
        }
    }
}

/// Every character of ASCII is a control character, the space or a graphic one, and only one of these.
/// Letters and digits are graphic, and are told apart; the blanks among them are not.
pub proof fn characters_have_one_class(c: char)
    requires
        c as u32 <= 127,
    ensures
        control(c) <==> !(c == ' ' || ascii_graphic(c)),
        c == ' ' ==> !ascii_graphic(c) && whitespace(c),
        whitespace(c) ==> c == ' ' || control(c),
        c == '\t' || c == '\n' || c == '\r' ==> whitespace(c),
        ascii_alphanumeric(c) ==> ascii_graphic(c),
        ascii_alphanumeric(c) <==> (ascii_digit(c) || ascii_letter(c)),
        !(ascii_digit(c) && ascii_letter(c)),
        ascii_digit(c) <==> 48 <= c as u32 <= 57,
        ascii_letter(c) <==> 97 <= lower_char(c) as u32 <= 122,
{
}

/// A text in lower case has the same length and no capital letter; only capitals are changed, each to
/// the small letter that stands as far from `a` as the capital from `A`.
pub proof fn lower_case_changes_capitals_only(s: Seq<char>, i: int)
    requires
        0 <= i < s.len(),
    ensures
        lower(s).len() == s.len(),
        !('A' <= lower(s)[i] <= 'Z'),
        'A' <= s[i] <= 'Z' ==> lower(s)[i] as u32 - 'a' as u32 == s[i] as u32 - 'A' as u32,
        !('A' <= s[i] <= 'Z') ==> lower(s)[i] == s[i],
        lower(lower(s)) == lower(s),
{
    assert(lower(s)[i] == lower_char(s[i]));
    assert forall|j: int| 0 <= j < s.len() implies lower(lower(s))[j] == #[trigger] lower(s)[j] by {
        assert(lower(s)[j] == lower_char(s[j]));
    }
    assert(lower(lower(s)) =~= lower(s));
}

} // verus!
