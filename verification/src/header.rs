use vstd::prelude::*;
use crate::error::FileError;
use crate::text::{
    is_numeric, is_whitespace, strip_quote_chars, strip_quotes, trim, trim_chars,
    numeric_char, unicode_white_space,
};

verus! {

/// The state of the scan over the header dictionary of an `.npy` file.
///
/// Names and values are gathered character by character; `items` holds the
/// entries completed so far, in the order their closing commas were read.
#[verifier::ext_equal]
pub struct DictModel {
    pub in_str: bool,
    pub in_name: bool,
    pub in_data: bool,
    pub in_paren: bool,
    pub name: Seq<char>,
    pub data: Seq<char>,
    pub items: Seq<(Seq<char>, Seq<char>)>,
}

/// The state before the first character after the opening brace.
pub open spec fn dict_start() -> DictModel {
    DictModel {
        in_str: false,
        in_name: true,
        in_data: false,
        in_paren: false,
        name: seq![],
        data: seq![],
        items: seq![],
    }
}

/// A key or value with white space trimmed and its surrounding quotes
/// stripped; `None` where nothing but white space is left.
pub open spec fn de_quote_spec(s: Seq<char>) -> Option<Seq<char>> {
    let t = trim(s);
    if t.len() == 0 {
        None
    } else {
        Some(strip_quotes(t))
    }
}

/// One character of the dictionary scan; `None` where the header is refused.
pub open spec fn dict_step(st: DictModel, c: char) -> Option<DictModel> {
    if c == '"' || c == '\'' {
        if !st.in_name && !st.in_data {
            None
        } else {
            Some(
                DictModel {
                    in_str: !st.in_str,
                    name: if st.in_name {
                        st.name.push(c)
                    } else {
                        st.name
                    },
                    data: if st.in_data {
                        st.data.push(c)
                    } else {
                        st.data
                    },
                    ..st
                },
            )
        }
    } else if c == ':' && !st.in_str {
        if st.in_paren {
            None
        } else {
            Some(DictModel { in_name: false, in_data: true, data: seq![], ..st })
        }
    } else if c == ',' && !st.in_str && !st.in_paren {
        match de_quote_spec(st.name) {
            None => None,
            Some(key) => Some(
                DictModel {
                    in_name: true,
                    in_data: false,
                    name: seq![],
                    data: seq![],
                    items: st.items.push((key, trim(st.data))),
                    ..st
                },
            ),
        }
    } else if c == '(' {
        if st.in_name || !st.in_data || trim(st.data).len() != 0 {
            None
        } else {
            Some(DictModel { in_paren: true, data: st.data.push(c), ..st })
        }
    } else if c == ')' {
        if st.in_name || !st.in_data {
            None
        } else {
            Some(DictModel { in_paren: false, data: st.data.push(c), ..st })
        }
    } else {
        Some(
            DictModel {
                name: if st.in_name {
                    st.name.push(c)
                } else {
                    st.name
                },
                data: if st.in_data {
                    st.data.push(c)
                } else {
                    st.data
                },
                ..st
            },
        )
    }
}

/// The scan over all of `cs`, from `st`.
pub open spec fn dict_scan(st: DictModel, cs: Seq<char>) -> Option<DictModel>
    decreases cs.len(),
{
    if cs.len() == 0 {
        Some(st)
    } else {
        match dict_step(st, cs[0]) {
            None => None,
            Some(next) => dict_scan(next, cs.drop_first()),
        }
    }
}

/// The value last stored under `key`.
pub open spec fn lookup(items: Seq<(Seq<char>, Seq<char>)>, key: Seq<char>) -> Option<Seq<char>>
    decreases items.len(),
{
    if items.len() == 0 {
        None
    } else if items.last().0 == key {
        Some(items.last().1)
    } else {
        lookup(items.drop_last(), key)
    }
}

/// Scanning one more character continues from where the shorter scan stopped.
pub proof fn lemma_dict_scan_push(st: DictModel, cs: Seq<char>, c: char)
    ensures
        dict_scan(st, cs.push(c)) == (match dict_scan(st, cs) {
            None => None,
            Some(s) => dict_step(s, c),
        }),
    decreases cs.len(),
{
    if cs.len() == 0 {
        assert(cs.push(c).drop_first() == cs);
        match dict_step(st, c) {
            None => {},
            Some(next) => {
                assert(dict_scan(next, cs) == Some(next));
            },
        }
    } else {
        assert(cs.push(c).drop_first() == cs.drop_first().push(c));
        match dict_step(st, cs[0]) {
            None => {},
            Some(next) => {
                lemma_dict_scan_push(next, cs.drop_first(), c);
            },
        }
    }
}

/// Scanning a concatenation scans the first part, then the second.
pub proof fn lemma_dict_scan_append(st: DictModel, a: Seq<char>, b: Seq<char>)
    ensures
        dict_scan(st, a + b) == (match dict_scan(st, a) {
            None => None,
            Some(s) => dict_scan(s, b),
        }),
    decreases a.len(),
{
    if a.len() == 0 {
        assert(a + b == b);
    } else {
        assert((a + b).drop_first() == a.drop_first() + b);
        match dict_step(st, a[0]) {
            None => {},
            Some(next) => {
                lemma_dict_scan_append(next, a.drop_first(), b);
            },
        }
    }
}

/// Characters equal as sequences.
pub fn chars_equal(a: &Vec<char>, b: &Vec<char>) -> (r: bool)
    ensures
        r == (a@ == b@),
{
    if a.len() != b.len() {
        return false;
    }
    let mut i: usize = 0;
    while i < a.len()
        invariant
            a@.len() == b@.len(),
            i <= a@.len(),
            forall|j: int| 0 <= j < i ==> a@[j] == b@[j],
        decreases a@.len() - i,
    {
        if a[i] != b[i] {
            return false;
        }
        i = i + 1;
    }
    assert(a@ == b@);
    true
}

/// A key or value with white space trimmed and its surrounding quotes
/// stripped; `None` where nothing but white space is left.
pub fn de_quote(s: &Vec<char>) -> (r: Option<Vec<char>>)
    ensures
        r matches Some(v) ==> de_quote_spec(s@) == Some(v@),
        r is None ==> de_quote_spec(s@) is None,
{
    let t = trim_chars(s);
    if t.len() == 0 {
        None
    } else {
        Some(strip_quote_chars(&t))
    }
}

/// The executable state of the dictionary scan.
pub struct DictScan {
    in_str: bool,
    in_name: bool,
    in_data: bool,
    in_paren: bool,
    name: Vec<char>,
    data: Vec<char>,
    keys: Vec<Vec<char>>,
    values: Vec<Vec<char>>,
}

impl DictScan {
    pub closed spec fn wf(&self) -> bool {
        self.keys@.len() == self.values@.len()
    }

    pub closed spec fn model(&self) -> DictModel {
        DictModel {
            in_str: self.in_str,
            in_name: self.in_name,
            in_data: self.in_data,
            in_paren: self.in_paren,
            name: self.name@,
            data: self.data@,
            items: Seq::new(
                self.keys@.len(),
                |i: int| (self.keys@[i]@, self.values@[i]@),
            ),
        }
    }

    pub fn new() -> (r: Self)
        ensures
            r.wf(),
            r.model() == dict_start(),
    {
        let r = DictScan {
            in_str: false,
            in_name: true,
            in_data: false,
            in_paren: false,
            name: Vec::new(),
            data: Vec::new(),
            keys: Vec::new(),
            values: Vec::new(),
        };
        assert(r.model().items == Seq::<(Seq<char>, Seq<char>)>::empty());
        r
    }

    /// Feeds one character; `false` where the header is refused.
    pub fn step(&mut self, c: char) -> (ok: bool)
        requires
            old(self).wf(),
        ensures
            ok ==> final(self).wf() && dict_step(old(self).model(), c) == Some(final(self).model()),
            !ok ==> dict_step(old(self).model(), c) is None,
    {
        let ghost m = self.model();
        if c == '"' || c == '\'' {
            self.in_str = !self.in_str;
            if self.in_name {
                self.name.push(c);
            }
            if self.in_data {
                self.data.push(c);
            }
            if !self.in_name && !self.in_data {
                return false;
            }
        } else if c == ':' && !self.in_str {
            if self.in_paren {
                return false;
            }
            self.in_name = false;
            self.in_data = true;
            self.data = Vec::new();
        } else if c == ',' && !self.in_str && !self.in_paren {
            match de_quote(&self.name) {
                None => {
                    return false;
                },
                Some(key) => {
                    let value = trim_chars(&self.data);
                    self.in_name = true;
                    self.in_data = false;
                    self.keys.push(key);
                    self.values.push(value);
                    self.name = Vec::new();
                    self.data = Vec::new();
                },
            }
        } else if c == '(' {
            let trimmed = trim_chars(&self.data);
            if self.in_name || !self.in_data || trimmed.len() != 0 {
                return false;
            }
            self.in_paren = true;
            self.data.push(c);
        } else if c == ')' {
            if self.in_name || !self.in_data {
                return false;
            }
            self.in_paren = false;
            self.data.push(c);
        } else {
            if self.in_name {
                self.name.push(c);
            }
            if self.in_data {
                self.data.push(c);
            }
        }
        assert(self.model().items == m.items || self.model().items == m.items.push(
            (self.keys@.last()@, self.values@.last()@),
        ));
        assert(dict_step(m, c) == Some(self.model()));
        true
    }

    /// The value last stored under `key`.
    pub fn lookup(&self, key: &Vec<char>) -> (r: Option<Vec<char>>)
        requires
            self.wf(),
        ensures
            r matches Some(v) ==> lookup(self.model().items, key@) == Some(v@),
            r is None ==> lookup(self.model().items, key@) is None,
    {
        let ghost items = self.model().items;
        let mut i = self.keys.len();
        assert(items.take(i as int) == items);
        while i > 0
            invariant
                self.wf(),
                items == self.model().items,
                i <= items.len(),
                lookup(items, key@) == lookup(items.take(i as int), key@),
            decreases i,
        {
            let ghost prefix = items.take(i as int);
            assert(prefix.last() == (self.keys@[i - 1]@, self.values@[i - 1]@));
            if chars_equal(&self.keys[i - 1], key) {
                return Some(clone_chars(&self.values[i - 1]));
            }
            assert(prefix.drop_last() == items.take(i - 1));
            i = i - 1;
        }
        None
    }
}

/// A copy of `v`.
pub fn clone_chars(v: &Vec<char>) -> (r: Vec<char>)
    ensures
        r@ == v@,
{
    let mut r: Vec<char> = Vec::new();
    let mut i: usize = 0;
    while i < v.len()
        invariant
            i <= v@.len(),
            r@ == v@.take(i as int),
        decreases v@.len() - i,
    {
        r.push(v[i]);
        i = i + 1;
    }
    assert(v@.take(v@.len() as int) == v@);
    r
}

/// Scans the header dictionary `cs[from..]`; `None` where it is refused.
pub fn scan_dict(cs: &Vec<char>, from: usize) -> (r: Option<DictScan>)
    requires
        from <= cs@.len(),
    ensures
        r matches Some(s) ==> s.wf() && dict_scan(dict_start(), cs@.skip(from as int)) == Some(
            s.model(),
        ),
        r is None ==> dict_scan(dict_start(), cs@.skip(from as int)) is None,
{
    let mut scan = DictScan::new();
    let mut i = from;
    while i < cs.len()
        invariant
            from <= i <= cs@.len(),
            scan.wf(),
            dict_scan(dict_start(), cs@.subrange(from as int, i as int)) == Some(scan.model()),
        decreases cs@.len() - i,
    {
        proof {
            lemma_dict_scan_push(dict_start(), cs@.subrange(from as int, i as int), cs@[i as int]);
            assert(cs@.subrange(from as int, i + 1) == cs@.subrange(from as int, i as int).push(
                cs@[i as int],
            ));
        }
        if !scan.step(cs[i]) {
            proof {
                assert(cs@.subrange(from as int, i + 1) == cs@.skip(from as int).take(
                    i + 1 - from,
                ));
                lemma_dict_scan_prefix_none(
                    dict_start(),
                    cs@.subrange(from as int, i + 1),
                    cs@.skip(from as int),
                );
            }
            return None;
        }
        i = i + 1;
    }
    assert(cs@.subrange(from as int, cs@.len() as int) == cs@.skip(from as int));
    Some(scan)
}

/// A refused prefix makes the whole scan refused.
proof fn lemma_dict_scan_prefix_none(st: DictModel, a: Seq<char>, full: Seq<char>)
    requires
        a.len() <= full.len(),
        a == full.take(a.len() as int),
        dict_scan(st, a) is None,
    ensures
        dict_scan(st, full) is None,
{
    lemma_dict_scan_append(st, a, full.skip(a.len() as int));
    assert(a + full.skip(a.len() as int) == full);
}

/// The state of the scan over a shape tuple such as `(2, 3, 1)`.
pub enum TupleScan {
    Running { first: bool, current: u32, out: Seq<u32>, in_beginning: bool },
    Done(Seq<u32>),
    Refused,
    /// The text holds a numeric character that is no ASCII digit, or a
    /// number above `u32::MAX`: reading it panics.
    Panics,
}

pub open spec fn tuple_start() -> TupleScan {
    TupleScan::Running { first: true, current: 0, out: seq![], in_beginning: false }
}

/// The value of an ASCII digit.
pub open spec fn digit_value(c: char) -> int {
    c as int - '0' as int
}

pub open spec fn is_ascii_digit(c: char) -> bool {
    '0' <= c && c <= '9'
}

/// One character of the tuple scan.
pub open spec fn tuple_step(st: TupleScan, c: char) -> TupleScan {
    match st {
        TupleScan::Running { first, current, out, in_beginning } => {
            if first {
                if c != '(' {
                    TupleScan::Refused
                } else {
                    TupleScan::Running { first: false, current, out, in_beginning: true }
                }
            } else if c == ',' {
                TupleScan::Running {
                    first: false,
                    current: 0,
                    out: out.push(current),
                    in_beginning: true,
                }
            } else if numeric_char(c) {
                if !is_ascii_digit(c) || current * 10 + digit_value(c) > u32::MAX {
                    TupleScan::Panics
                } else {
                    TupleScan::Running {
                        first: false,
                        current: (current * 10 + digit_value(c)) as u32,
                        out,
                        in_beginning: false,
                    }
                }
            } else if unicode_white_space(c) {
                if !in_beginning {
                    TupleScan::Refused
                } else {
                    st
                }
            } else if c == ')' {
                if in_beginning {
                    TupleScan::Refused
                } else {
                    TupleScan::Done(out.push(current))
                }
            } else {
                TupleScan::Refused
            }
        },
        _ => st,
    }
}

pub open spec fn tuple_scan(st: TupleScan, cs: Seq<char>) -> TupleScan
    decreases cs.len(),
{
    if cs.len() == 0 {
        st
    } else {
        tuple_scan(tuple_step(st, cs[0]), cs.drop_first())
    }
}

/// What reading the tuple text `s` gives: its numbers, a refusal, or a panic.
pub open spec fn tuple_outcome(s: Seq<char>) -> TupleScan {
    match tuple_scan(tuple_start(), trim(s)) {
        TupleScan::Running { .. } => TupleScan::Refused,
        r => r,
    }
}

pub proof fn lemma_tuple_scan_push(st: TupleScan, cs: Seq<char>, c: char)
    ensures
        tuple_scan(st, cs.push(c)) == tuple_step(tuple_scan(st, cs), c),
    decreases cs.len(),
{
    if cs.len() == 0 {
        assert(cs.push(c).drop_first() == cs);
        assert(tuple_scan(tuple_step(st, c), cs) == tuple_step(st, c));
    } else {
        assert(cs.push(c).drop_first() == cs.drop_first().push(c));
        lemma_tuple_scan_push(tuple_step(st, cs[0]), cs.drop_first(), c);
    }
}

/// A finished scan stays finished.
pub proof fn lemma_tuple_scan_final(st: TupleScan, cs: Seq<char>)
    requires
        !(st is Running),
    ensures
        tuple_scan(st, cs) == st,
    decreases cs.len(),
{
    if cs.len() > 0 {
        lemma_tuple_scan_final(tuple_step(st, cs[0]), cs.drop_first());
    }
}

pub proof fn lemma_tuple_scan_append(st: TupleScan, a: Seq<char>, b: Seq<char>)
    ensures
        tuple_scan(st, a + b) == tuple_scan(tuple_scan(st, a), b),
    decreases a.len(),
{
    if a.len() == 0 {
        assert(a + b == b);
    } else {
        assert((a + b).drop_first() == a.drop_first() + b);
        lemma_tuple_scan_append(tuple_step(st, a[0]), a.drop_first(), b);
    }
}

/// Outcome of reading a tuple: its numbers, a refusal, or the input on which
/// reading panics.
pub enum TupleRun {
    Parsed(Vec<u32>),
    Refused,
    Panics,
}

fn ascii_digit_value(c: char) -> (d: u32)
    requires
        is_ascii_digit(c),
    ensures
        d == digit_value(c),
{
    (c as u32) - ('0' as u32)
}

/// Runs the tuple scan over `s`, telling apart the inputs on which reading panics.
pub fn run_tuple(s: &Vec<char>) -> (r: TupleRun)
    ensures
        r matches TupleRun::Parsed(v) ==> tuple_outcome(s@) == TupleScan::Done(v@),
        r is Refused ==> tuple_outcome(s@) is Refused,
        r is Panics ==> tuple_outcome(s@) is Panics,
{
    let t = trim_chars(s);
    let mut first = true;
    let mut current: u32 = 0;
    let mut out: Vec<u32> = Vec::new();
    let mut in_beginning = false;
    let mut i: usize = 0;
    while i < t.len()
        invariant
            t@ == trim(s@),
            i <= t@.len(),
            tuple_scan(tuple_start(), t@.take(i as int)) == (TupleScan::Running {
                first,
                current,
                out: out@,
                in_beginning,
            }),
        decreases t@.len() - i,
    {
        let c = t[i];
        proof {
            lemma_tuple_scan_push(tuple_start(), t@.take(i as int), c);
            assert(t@.take(i + 1) == t@.take(i as int).push(c));
        }
        let ghost next = tuple_step(
            TupleScan::Running { first, current, out: out@, in_beginning },
            c,
        );
        let ghost done = t@.take(i + 1);
        if first {
            if c != '(' {
                proof {
                    lemma_tuple_finish(t@, done, next);
                }
                return TupleRun::Refused;
            }
            in_beginning = true;
        } else if c == ',' {
            out.push(current);
            current = 0;
            in_beginning = true;
        } else if is_numeric(c) {
            if !('0' <= c && c <= '9') {
                proof {
                    lemma_tuple_finish(t@, done, next);
                }
                return TupleRun::Panics;
            }
            let d = ascii_digit_value(c);
            if current > (u32::MAX - d) / 10 {
                proof {
                    assert(current * 10 + d > u32::MAX) by (nonlinear_arith)
                        requires
                            current > (u32::MAX - d) / 10,
                            d <= 9,
                    ;
                    lemma_tuple_finish(t@, done, next);
                }
                return TupleRun::Panics;
            }
            proof {
                assert(current * 10 + d <= u32::MAX) by (nonlinear_arith)
                    requires
                        current <= (u32::MAX - d) / 10,
                        d <= 9,
                ;
            }
            current = current * 10 + d;
            in_beginning = false;
        } else if is_whitespace(c) {
            if !in_beginning {
                proof {
                    lemma_tuple_finish(t@, done, next);
                }
                return TupleRun::Refused;
            }
        } else if c == ')' {
            if in_beginning {
                proof {
                    lemma_tuple_finish(t@, done, next);
                }
                return TupleRun::Refused;
            }
            out.push(current);
            proof {
                lemma_tuple_finish(t@, done, next);
            }
            return TupleRun::Parsed(out);
        } else {
            proof {
                lemma_tuple_finish(t@, done, next);
            }
            return TupleRun::Refused;
        }
        first = false;
        i = i + 1;
    }
    proof {
        assert(t@.take(t@.len() as int) == t@);
    }
    TupleRun::Refused
}

/// Once a prefix of the text finishes the scan, the whole text ends the same way.
proof fn lemma_tuple_finish(t: Seq<char>, done: Seq<char>, end: TupleScan)
    requires
        done.len() <= t.len(),
        done == t.take(done.len() as int),
        tuple_scan(tuple_start(), done) == end,
        !(end is Running),
    ensures
        tuple_scan(tuple_start(), t) == end,
{
    lemma_tuple_scan_append(tuple_start(), done, t.skip(done.len() as int));
    assert(done + t.skip(done.len() as int) == t);
    lemma_tuple_scan_final(end, t.skip(done.len() as int));
}

/// Reads a shape tuple such as `(2, 3, 1)`: an opening parenthesis, then
/// numbers separated by commas, white space allowed only at the start of a
/// number, and a closing parenthesis after a number.
pub fn parse_tuple(tuple_str: &Vec<char>) -> (r: Result<Vec<u32>, FileError>)
    requires
        !(tuple_outcome(tuple_str@) is Panics),
    ensures
        r matches Ok(v) ==> tuple_outcome(tuple_str@) == TupleScan::Done(v@),
        r is Err ==> tuple_outcome(tuple_str@) is Refused && r == Err::<Vec<u32>, FileError>(
            FileError::InvalidHeaderJson,
        ),
{
    match run_tuple(tuple_str) {
        TupleRun::Parsed(v) => Ok(v),
        _ => Err(FileError::InvalidHeaderJson),
    }
}

} // verus!
