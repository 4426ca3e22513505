//! The line grammar of the descriptor files: each non-blank line either
//! opens a block (`key {`), closes one (`}`), or carries a field
//! (`key: "string"` or `key: token`).
//!
//! This is a line-oriented subset of the common textual record formats:
//! one item per line, double-quoted strings only, escapes limited to
//! `\"` and `\\` (any other backslash pair is kept as written), no
//! string concatenation across tokens, and comments from `#` to the end
//! of a line only when the `#` opens the line.
use vstd::prelude::*;

use crate::num::{all_digits, digits_value, is_digit, lemma_num_val_bound, num_val, pow10};
use crate::text::{
    find_char, find_from, is_ws, string_of, subvec, trim, trim_range,
};

verus! {

/// Why a descriptor failed to parse.  Line numbers count from zero.
#[derive(Clone, Copy, Debug, PartialEq, Eq, Structural)]
pub enum ParseError {
    /// A line that is no block opening, block close, field, blank or
    /// comment.
    MalformedLine(usize),
    /// A `}` with no block open.
    UnmatchedClose(usize),
    /// An integer field whose value is not an integer the grammar
    /// accepts.
    BadInteger(usize),
    /// A block still open at the end of the file.
    UnclosedBlock,
    /// A family descriptor with no (or an empty) `name` field.
    MissingName,
    /// A language descriptor with no (or an empty) `id` field.
    MissingId,
}

/// The content of an optional string field.
pub open spec fn opt_str_view(o: Option<String>) -> Option<Seq<char>> {
    match o {
        Some(s) => Some(s@),
        None => None,
    }
}

/// The reading of one descriptor line.
pub ghost enum SpecLine {
    /// Empty, all-whitespace, or a comment.
    Blank,
    /// `key {` — opens a block.
    Open(Seq<char>),
    /// `}` — closes the innermost block.
    Close,
    /// `key: "value"`, with the quotes removed and escapes resolved.
    StrField(Seq<char>, Seq<char>),
    /// `key: value` with an unquoted value, kept as written.
    TokField(Seq<char>, Seq<char>),
    /// Anything else.
    Bad,
}

/// Executable counterpart of `SpecLine`.
pub enum Line {
    Blank,
    Open(String),
    Close,
    StrField(String, String),
    TokField(String, String),
    Bad,
}

impl View for Line {
    type V = SpecLine;

    open spec fn view(&self) -> SpecLine {
        match self {
            Line::Blank => SpecLine::Blank,
            Line::Open(k) => SpecLine::Open(k@),
            Line::Close => SpecLine::Close,
            Line::StrField(k, v) => SpecLine::StrField(k@, v@),
            Line::TokField(k, v) => SpecLine::TokField(k@, v@),
            Line::Bad => SpecLine::Bad,
        }
    }
}

/// A character a key may consist of.
pub open spec fn is_ident(c: char) -> bool {
    !is_ws(c) && c != ':' && c != '{' && c != '}' && c != '"' && c != '#'
}

/// A well-formed key: non-empty, identifier characters only.
pub open spec fn key_ok(k: Seq<char>) -> bool {
    k.len() > 0 && forall|i: int| 0 <= i < k.len() ==> is_ident(#[trigger] k[i])
}

/// Reads a quoted string's content from position `i` (just after the
/// opening quote) to its closing quote; `\"` and `\\` stand for the
/// escaped character, any other backslash pair is kept as written.
pub open spec fn scan_string(s: Seq<char>, i: int) -> Option<(Seq<char>, int)>
    decreases s.len() - i,
{
    if i < 0 || i >= s.len() {
        None
    } else if s[i] == '"' {
        Some((Seq::empty(), i + 1))
    } else if s[i] == '\\' && i + 1 < s.len() {
        match scan_string(s, i + 2) {
            None => None,
            Some((c, e)) => if s[i + 1] == '"' || s[i + 1] == '\\' {
                Some((seq![s[i + 1]] + c, e))
            } else {
                Some((seq![s[i], s[i + 1]] + c, e))
            },
        }
    } else {
        match scan_string(s, i + 1) {
            None => None,
            Some((c, e)) => Some((seq![s[i]] + c, e)),
        }
    }
}

pub proof fn lemma_scan_string_bounds(s: Seq<char>, i: int)
    requires
        0 <= i,
    ensures
        scan_string(s, i) matches Some(ce) ==> i < ce.1 <= s.len(),
    decreases s.len() - i,
{
    if i < s.len() && s[i] != '"' {
        if s[i] == '\\' && i + 1 < s.len() {
            lemma_scan_string_bounds(s, i + 2);
        } else {
            lemma_scan_string_bounds(s, i + 1);
        }
    }
}

/// The classification of one line.
pub open spec fn classify(l: Seq<char>) -> SpecLine {
    let t = trim(l);
    if t.len() == 0 {
        SpecLine::Blank
    } else if t[0] == '#' {
        SpecLine::Blank
    } else if t.len() == 1 && t[0] == '}' {
        SpecLine::Close
    } else if t.last() == '{' && key_ok(trim(t.drop_last())) {
        SpecLine::Open(trim(t.drop_last()))
    } else {
        match find_from(t, 0, ':') {
            None => SpecLine::Bad,
            Some(p) => {
                let k = t.take(p);
                let v = trim(t.subrange(p + 1, t.len() as int));
                if !key_ok(k) {
                    SpecLine::Bad
                } else if v.len() == 0 {
                    SpecLine::Bad
                } else if v[0] == '"' {
                    match scan_string(v, 1) {
                        None => SpecLine::Bad,
                        Some(ce) => if trim(v.subrange(ce.1, v.len() as int)).len() == 0 {
                            SpecLine::StrField(k, ce.0)
                        } else {
                            SpecLine::Bad
                        },
                    }
                } else {
                    SpecLine::TokField(k, v)
                }
            },
        }
    }
}

fn is_ident_char(c: char) -> (r: bool)
    ensures
        r == is_ident(c),
{
    !crate::text::is_ws_char(c) && c != ':' && c != '{' && c != '}' && c != '"' && c != '#'
}

/// Checks `key_ok` on the window `[lo, hi)` of `v`.
fn key_ok_range(v: &Vec<char>, lo: usize, hi: usize) -> (r: bool)
    requires
        lo <= hi <= v@.len(),
    ensures
        r == key_ok(v@.subrange(lo as int, hi as int)),
{
    if hi == lo {
        return false;
    }
    let mut i: usize = lo;
    while i < hi
        invariant
            lo <= i <= hi <= v@.len(),
            forall|k: int| lo <= k < i ==> is_ident(#[trigger] v@[k]),
        decreases hi - i,
    {
        if !is_ident_char(v[i]) {
            proof {
                let w = v@.subrange(lo as int, hi as int);
                assert(w[i - lo] == v@[i as int]);
            }
            return false;
        }
        i = i + 1;
    }
    proof {
        let w = v@.subrange(lo as int, hi as int);
        assert(forall|k: int| 0 <= k < w.len() ==> #[trigger] w[k] == v@[lo + k]);
    }
    true
}

/// Executable counterpart of `scan_string`.
fn scan_string_exec(v: &Vec<char>, start: usize) -> (r: Option<(String, usize)>)
    requires
        start <= v@.len(),
    ensures
        match r {
            Some(ce) => scan_string(v@, start as int) == Some((ce.0@, ce.1 as int)) && start
                < ce.1 <= v@.len(),
            None => scan_string(v@, start as int) is None,
        },
{
    proof {
        lemma_scan_string_bounds(v@, start as int);
    }
    let mut i: usize = start;
    let mut content = String::new();
    proof {
        assert(content@ =~= Seq::<char>::empty());
    }
    while i < v.len()
        invariant
            start <= i <= v@.len(),
            (match scan_string(v@, i as int) {
                Some(ce) => scan_string(v@, start as int) matches Some(whole) && whole.0
                    == content@ + ce.0 && whole.1 == ce.1,
                None => scan_string(v@, start as int) is None,
            }),
        decreases v@.len() - i,
    {
        let c = v[i];
        if c == '"' {
            proof {
                assert(scan_string(v@, i as int) == Some((Seq::<char>::empty(), i + 1)));
                assert(content@ + Seq::<char>::empty() =~= content@);
                lemma_scan_string_bounds(v@, start as int);
            }
            return Some((content, i + 1));
        } else if c == '\\' && i + 1 < v.len() {
            let e = v[i + 1];
            let ghost pre = content@;
            if e == '"' || e == '\\' {
                crate::text::push_char(&mut content, e);
                proof {
                    if let Some(ce) = scan_string(v@, i + 2) {
                        assert(content@ + ce.0 =~= pre + (seq![e] + ce.0));
                    }
                }
            } else {
                crate::text::push_char(&mut content, c);
                crate::text::push_char(&mut content, e);
                proof {
                    if let Some(ce) = scan_string(v@, i + 2) {
                        assert(content@ + ce.0 =~= pre + (seq![c, e] + ce.0));
                    }
                }
            }
            i = i + 2;
        } else {
            let ghost pre = content@;
            crate::text::push_char(&mut content, c);
            proof {
                if let Some(ce) = scan_string(v@, i + 1) {
                    assert(content@ + ce.0 =~= pre + (seq![c] + ce.0));
                }
            }
            i = i + 1;
        }
    }
    None
}

/// Classifies one line, given as its own character vector.
pub fn classify_line(line: &Vec<char>) -> (r: Line)
    ensures
        r@ == classify(line@),
{
    let n = line.len();
    let (t0, t1) = trim_range(line, 0, n);
    let t = subvec(line, t0, t1);
    let ghost tv = trim(line@);
    proof {
        assert(line@.subrange(0, line@.len() as int) =~= line@);
        assert(t@ == tv);
    }
    if t.len() == 0 {
        return Line::Blank;
    }
    if t[0] == '#' {
        return Line::Blank;
    }
    if t.len() == 1 && t[0] == '}' {
        return Line::Close;
    }
    if t[t.len() - 1] == '{' {
        proof {
            assert(tv.last() == t@[t@.len() - 1]);
            assert(t@.subrange(0, t@.len() - 1) =~= tv.drop_last());
        }
        let (k0, k1) = trim_range(&t, 0, t.len() - 1);
        if key_ok_range(&t, k0, k1) {
            let key = string_of(&t, k0, k1);
            return Line::Open(key);
        }
    }
    proof {
        assert(!(tv.last() == '{' && key_ok(trim(tv.drop_last()))));
    }
    match find_char(&t, 0, ':') {
        None => Line::Bad,
        Some(p) => {
            proof {
                assert(t@.subrange(0, p as int) =~= tv.take(p as int));
            }
            if !key_ok_range(&t, 0, p) {
                return Line::Bad;
            }
            let key = string_of(&t, 0, p);
            let (v0, v1) = trim_range(&t, p + 1, t.len());
            let w = subvec(&t, v0, v1);
            let ghost vv = trim(tv.subrange(p + 1, tv.len() as int));
            proof {
                assert(tv.subrange(p + 1, tv.len() as int) == t@.subrange(
                    p + 1,
                    t@.len() as int,
                ));
                assert(w@ == vv);
            }
            if w.len() == 0 {
                return Line::Bad;
            }
            if w[0] == '"' {
                match scan_string_exec(&w, 1) {
                    None => Line::Bad,
                    Some((content, end)) => {
                        let (a, b) = trim_range(&w, end, w.len());
                        proof {
                            assert(trim(vv.subrange(end as int, vv.len() as int)) == w@.subrange(
                                a as int,
                                b as int,
                            ));
                        }
                        if b - a == 0 {
                            proof {
                                assert(trim(vv.subrange(end as int, vv.len() as int)).len() == 0);
                            }
                            Line::StrField(key, content)
                        } else {
                            Line::Bad
                        }
                    },
                }
            } else {
                let tok = string_of(&w, 0, w.len());
                proof {
                    assert(tok@ =~= vv);
                }
                Line::TokField(key, tok)
            }
        },
    }
}

/// The integer grammar of the descriptor fields: an optional minus sign,
/// then one to eighteen digits.
pub open spec fn spec_parse_int(s: Seq<char>) -> Option<int> {
    let neg = s.len() > 0 && s[0] == '-';
    let lo: int = if neg {
        1
    } else {
        0
    };
    let d = s.subrange(lo, s.len() as int);
    if 1 <= d.len() <= 18 && all_digits(d) {
        Some(
            if neg {
                -num_val(d)
            } else {
                num_val(d)
            },
        )
    } else {
        None
    }
}

/// Executable counterpart of `spec_parse_int`.
pub fn parse_int(v: &Vec<char>) -> (r: Option<i64>)
    ensures
        match r {
            Some(x) => spec_parse_int(v@) == Some(x as int),
            None => spec_parse_int(v@) is None,
        },
{
    let n = v.len();
    let neg = n > 0 && v[0] == '-';
    let lo: usize = if neg {
        1
    } else {
        0
    };
    let ghost d = v@.subrange(lo as int, n as int);
    let count = n - lo;
    if count < 1 || count > 18 {
        return None;
    }
    match digits_value(v, lo, n, 0, Ghost(Seq::empty())) {
        None => {
            return None;
        },
        Some(m) => {
            proof {
                assert(Seq::<char>::empty() + d =~= d);
                lemma_num_val_bound(d);
                crate::num::lemma_pow10_mono(d.len(), 18);
                assert(pow10(18) == 1000000000000000000) by {
                    reveal_with_fuel(pow10, 19);
                }
            }
            let x = m as i64;
            if neg {
                Some(-x)
            } else {
                Some(x)
            }
        },
    }
}

} // verus!
