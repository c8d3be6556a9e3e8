use vstd::prelude::*;
use vstd::utf8::{decode_utf8, valid_utf8};
use std::str::Utf8Error;

verus! {

#[verifier::external_type_specification]
#[verifier::external_body]
pub struct ExUtf8Error(std::str::Utf8Error);

/// Characters with the Unicode `White_Space` property, which is what
/// `char::is_whitespace` tests.
pub open spec fn unicode_white_space(c: char) -> bool {
    ||| c == ' '
    ||| ('\u{9}' <= c && c <= '\u{d}')
    ||| c == '\u{85}'
    ||| c == '\u{a0}'
    ||| c == '\u{1680}'
    ||| ('\u{2000}' <= c && c <= '\u{200a}')
    ||| c == '\u{2028}'
    ||| c == '\u{2029}'
    ||| c == '\u{202f}'
    ||| c == '\u{205f}'
    ||| c == '\u{3000}'
}

/// Whether `c` is white space in the sense of `char::is_whitespace`.
pub fn is_whitespace(c: char) -> (r: bool)
    ensures
        r == unicode_white_space(c),
{
    c == ' ' || ('\u{9}' <= c && c <= '\u{d}') || c == '\u{85}' || c == '\u{a0}' || c
        == '\u{1680}' || ('\u{2000}' <= c && c <= '\u{200a}') || c == '\u{2028}' || c
        == '\u{2029}' || c == '\u{202f}' || c == '\u{205f}' || c == '\u{3000}'
}

/// `s` without its leading white space.
pub open spec fn trim_start(s: Seq<char>) -> Seq<char>
    decreases s.len(),
{
    if s.len() > 0 && unicode_white_space(s[0]) {
        trim_start(s.drop_first())
    } else {
        s
    }
}

/// `s` without its trailing white space.
pub open spec fn trim_end(s: Seq<char>) -> Seq<char>
    decreases s.len(),
{
    if s.len() > 0 && unicode_white_space(s.last()) {
        trim_end(s.drop_last())
    } else {
        s
    }
}

/// `s` without leading and trailing white space, as `str::trim` gives it.
pub open spec fn trim(s: Seq<char>) -> Seq<char> {
    trim_end(trim_start(s))
}

/// `s` without leading and trailing single or double quotes, as
/// `str::trim_matches` with those two characters gives it.
pub open spec fn strip_quotes(s: Seq<char>) -> Seq<char> {
    strip_quotes_end(strip_quotes_start(s))
}

pub open spec fn is_quote(c: char) -> bool {
    c == '"' || c == '\''
}

pub open spec fn strip_quotes_start(s: Seq<char>) -> Seq<char>
    decreases s.len(),
{
    if s.len() > 0 && is_quote(s[0]) {
        strip_quotes_start(s.drop_first())
    } else {
        s
    }
}

pub open spec fn strip_quotes_end(s: Seq<char>) -> Seq<char>
    decreases s.len(),
{
    if s.len() > 0 && is_quote(s.last()) {
        strip_quotes_end(s.drop_last())
    } else {
        s
    }
}

proof fn lemma_trim_start_skip(s: Seq<char>, k: int)
    requires
        0 <= k <= s.len(),
        forall|i: int| 0 <= i < k ==> #[trigger] unicode_white_space(s[i]),
    ensures
        trim_start(s) == trim_start(s.subrange(k, s.len() as int)),
    decreases k,
{
    if k > 0 {
        lemma_trim_start_skip(s.drop_first(), k - 1);
        assert(s.drop_first().subrange(k - 1, s.drop_first().len() as int) == s.subrange(
            k,
            s.len() as int,
        ));
    } else {
        assert(s.subrange(0, s.len() as int) == s);
    }
}

proof fn lemma_trim_end_skip(s: Seq<char>, k: int)
    requires
        0 <= k <= s.len(),
        forall|i: int| k <= i < s.len() ==> #[trigger] unicode_white_space(s[i]),
    ensures
        trim_end(s) == trim_end(s.subrange(0, k)),
    decreases s.len() - k,
{
    if k < s.len() {
        lemma_trim_end_skip(s.drop_last(), k);
        assert(s.drop_last().subrange(0, k) == s.subrange(0, k));
    } else {
        assert(s.subrange(0, k) == s);
    }
}

proof fn lemma_strip_start_skip(s: Seq<char>, k: int)
    requires
        0 <= k <= s.len(),
        forall|i: int| 0 <= i < k ==> #[trigger] is_quote(s[i]),
    ensures
        strip_quotes_start(s) == strip_quotes_start(s.subrange(k, s.len() as int)),
    decreases k,
{
    if k > 0 {
        lemma_strip_start_skip(s.drop_first(), k - 1);
        assert(s.drop_first().subrange(k - 1, s.drop_first().len() as int) == s.subrange(
            k,
            s.len() as int,
        ));
    } else {
        assert(s.subrange(0, s.len() as int) == s);
    }
}

proof fn lemma_strip_end_skip(s: Seq<char>, k: int)
    requires
        0 <= k <= s.len(),
        forall|i: int| k <= i < s.len() ==> #[trigger] is_quote(s[i]),
    ensures
        strip_quotes_end(s) == strip_quotes_end(s.subrange(0, k)),
    decreases s.len() - k,
{
    if k < s.len() {
        lemma_strip_end_skip(s.drop_last(), k);
        assert(s.drop_last().subrange(0, k) == s.subrange(0, k));
    } else {
        assert(s.subrange(0, k) == s);
    }
}

/// `s` without leading and trailing white space.
pub fn trim_chars(s: &Vec<char>) -> (r: Vec<char>)
    ensures
        r@ == trim(s@),
{
    let n = s.len();
    let mut start: usize = 0;
    while start < n && is_whitespace(s[start])
        invariant
            n == s@.len(),
            start <= n,
            forall|i: int| 0 <= i < start ==> #[trigger] unicode_white_space(s@[i]),
        decreases n - start,
    {
        start = start + 1;
    }
    let mut end: usize = n;
    while end > start && is_whitespace(s[end - 1])
        invariant
            n == s@.len(),
            start <= end <= n,
            forall|i: int| end <= i < n ==> #[trigger] unicode_white_space(s@[i]),
        decreases end,
    {
        end = end - 1;
    }
    let mut r: Vec<char> = Vec::new();
    let mut i = start;
    while i < end
        invariant
            n == s@.len(),
            start <= i <= end <= n,
            r@ == s@.subrange(start as int, i as int),
        decreases end - i,
    {
        r.push(s[i]);
        i = i + 1;
    }
    proof {
        let t = s@.subrange(start as int, n as int);
        lemma_trim_start_skip(s@, start as int);
        assert(start < n ==> !unicode_white_space(s@[start as int]));
        assert(trim_start(t) == t);
        assert forall|i: int| end - start <= i < t.len() implies #[trigger] unicode_white_space(
            t[i],
        ) by {
            assert(t[i] == s@[start + i]);
        }
        lemma_trim_end_skip(t, end - start);
        assert(t.subrange(0, end - start) == s@.subrange(start as int, end as int));
        let u = s@.subrange(start as int, end as int);
        if u.len() > 0 {
            assert(u.last() == s@[end - 1]);
        }
        assert(trim_end(u) == u);
    }
    r
}

/// `s` without leading and trailing quote characters.
pub fn strip_quote_chars(s: &Vec<char>) -> (r: Vec<char>)
    ensures
        r@ == strip_quotes(s@),
{
    let n = s.len();
    let mut start: usize = 0;
    while start < n && (s[start] == '"' || s[start] == '\'')
        invariant
            n == s@.len(),
            start <= n,
            forall|i: int| 0 <= i < start ==> #[trigger] is_quote(s@[i]),
        decreases n - start,
    {
        start = start + 1;
    }
    let mut end: usize = n;
    while end > start && (s[end - 1] == '"' || s[end - 1] == '\'')
        invariant
            n == s@.len(),
            start <= end <= n,
            forall|i: int| end <= i < n ==> #[trigger] is_quote(s@[i]),
        decreases end,
    {
        end = end - 1;
    }
    let mut r: Vec<char> = Vec::new();
    let mut i = start;
    while i < end
        invariant
            n == s@.len(),
            start <= i <= end <= n,
            r@ == s@.subrange(start as int, i as int),
        decreases end - i,
    {
        r.push(s[i]);
        i = i + 1;
    }
    proof {
        let t = s@.subrange(start as int, n as int);
        lemma_strip_start_skip(s@, start as int);
        assert(start < n ==> !is_quote(s@[start as int]));
        assert(strip_quotes_start(t) == t);
        assert forall|i: int| end - start <= i < t.len() implies #[trigger] is_quote(t[i]) by {
            assert(t[i] == s@[start + i]);
        }
        lemma_strip_end_skip(t, end - start);
        assert(t.subrange(0, end - start) == s@.subrange(start as int, end as int));
        let u = s@.subrange(start as int, end as int);
        if u.len() > 0 {
            assert(u.last() == s@[end - 1]);
        }
        assert(strip_quotes_end(u) == u);
    }
    r
}

/// Whether a non-ASCII `c` belongs to one of Unicode's numeric general
/// categories (`Nd`, `Nl`, `No`), as `char::is_numeric` reports it.
pub uninterp spec fn unicode_numeric(c: char) -> bool;

/// What `char::is_numeric` reports: among ASCII characters exactly the ten
/// decimal digits are numeric (the only ones of category `Nd`, `Nl` or
/// `No`); beyond ASCII, the named Unicode property.
pub open spec fn numeric_char(c: char) -> bool {
    if c <= '\u{7f}' {
        '0' <= c && c <= '9'
    } else {
        unicode_numeric(c)
    }
}

/// Calls `char::is_numeric`: on ASCII characters it holds of the ten
/// digits alone; beyond ASCII its result is named `unicode_numeric(c)`.
#[verifier::external_body]
pub(crate) fn is_numeric(c: char) -> (r: bool)
    ensures
        c <= '\u{7f}' ==> (r <==> ('0' <= c && c <= '9')),
        c > '\u{7f}' ==> r == unicode_numeric(c),
{
    c.is_numeric()
}

/// Calls `std::str::from_utf8`: it succeeds exactly on valid UTF-8, and the
/// string it gives holds the decoded characters. Which `Utf8Error` it gives
/// on failure is not stated.
#[verifier::external_body]
pub(crate) fn str_from_utf8(bytes: &[u8]) -> (r: Result<&str, Utf8Error>)
    ensures
        r is Ok <==> valid_utf8(bytes@),
        r matches Ok(s) ==> s@ == decode_utf8(bytes@),
{
    std::str::from_utf8(bytes)
}

/// Calls `String::push`, which appends one character.
#[verifier::external_body]
fn string_push(s: &mut String, c: char)
    ensures
        final(s)@ == old(s)@.push(c),
{
    s.push(c)
}

/// A `String` holding the characters of `v`.
pub fn string_from_chars(v: &Vec<char>) -> (r: String)
    ensures
        r@ == v@,
{
    let mut r = String::new();
    let mut i: usize = 0;
    while i < v.len()
        invariant
            i <= v@.len(),
            r@ == v@.subrange(0, i as int),
        decreases v@.len() - i,
    {
        string_push(&mut r, v[i]);
        i = i + 1;
    }
    r
}

/// The characters of `s`, in order.
pub fn chars_of(s: &str) -> (r: Vec<char>)
    ensures
        r@ == s@,
{
    let mut r: Vec<char> = Vec::new();
    for c in it: s.chars()
        invariant
            r@ == it.seq().take(it.index() as int),
    {
        r.push(c);
    }
    r
}

/// Appends the characters of `s`.
pub fn push_str(out: &mut Vec<char>, s: &str)
    ensures
        final(out)@ == old(out)@ + s@,
{
    let mut cs = chars_of(s);
    out.append(&mut cs);
}

} // verus!
