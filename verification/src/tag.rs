//! The tag-line grammar: comma-separated fields with optional double-quote
//! delimiting, three or four fields per line, and a decimal final field.
use vstd::prelude::*;

use crate::num::{all_digits, digits_value, is_digit, lemma_num_val_bound, lemma_pow10_mono, num_val, pow10};
use crate::text::{
    chars_of, find_char, find_from, is_ws, skip_ws, skip_ws_exec, string_of, trim, trim_range,
};

verus! {

/// A decimal numeric value, read as
/// `(-1 if negative else 1) * mantissa / 10^scale`.  Only plain decimals
/// fit here — see `spec_parse_decimal` for the exact grammar.
#[derive(Clone, Copy, Debug, PartialEq, Eq, Structural)]
pub struct TagValue {
    pub negative: bool,
    pub mantissa: u64,
    pub scale: u32,
}

/// One family annotation: family name, localization key (empty when the
/// line has only three fields), tag name, and numeric value.
#[derive(Clone, Debug, PartialEq)]
pub struct Tag {
    pub family: String,
    pub loc: String,
    pub tag: String,
    pub value: TagValue,
}

/// The abstract content of a `Tag`.
pub ghost struct SpecTag {
    pub family: Seq<char>,
    pub loc: Seq<char>,
    pub tag: Seq<char>,
    pub value: TagValue,
}

impl View for Tag {
    type V = SpecTag;

    open spec fn view(&self) -> SpecTag {
        SpecTag { family: self.family@, loc: self.loc@, tag: self.tag@, value: self.value }
    }
}

#[derive(Clone, Copy, Debug, PartialEq, Eq, Structural)]
pub enum TagParseError {
    /// A field opened with a double quote that is never closed.
    UnclosedQuote,
    /// The line does not split into exactly three or four fields.
    WrongFieldCount,
    /// The final field is not a decimal number the grammar accepts.
    BadValue,
}

/// The decimal grammar of the value field: an optional sign, then digits
/// with at most one decimal point, at least one and at most nineteen
/// digits in all.  This is deliberately narrower than a general
/// floating-point reader: exponent forms (`2.5e3`), `inf` and `NaN`, and
/// longer digit strings are not part of the grammar and are reported as
/// `BadValue`.
pub open spec fn spec_parse_decimal(f: Seq<char>) -> Option<TagValue> {
    let signed = f.len() > 0 && (f[0] == '-' || f[0] == '+');
    let start: int = if signed {
        1
    } else {
        0
    };
    let neg = f.len() > 0 && f[0] == '-';
    let n = f.len() as int;
    let digits = match find_from(f, start, '.') {
        Some(p) => f.subrange(start, p) + f.subrange(p + 1, n),
        None => f.subrange(start, n),
    };
    let scale: int = match find_from(f, start, '.') {
        Some(p) => n - p - 1,
        None => 0,
    };
    if 1 <= digits.len() <= 19 && all_digits(digits) {
        Some(TagValue { negative: neg, mantissa: num_val(digits) as u64, scale: scale as u32 })
    } else {
        None
    }
}

/// Executable counterpart of `spec_parse_decimal`, on the whole of `v`.
fn parse_decimal(v: &Vec<char>) -> (r: Option<TagValue>)
    ensures
        r == spec_parse_decimal(v@),
{
    let n = v.len();
    let signed = n > 0 && (v[0] == '-' || v[0] == '+');
    let start: usize = if signed {
        1
    } else {
        0
    };
    let neg = n > 0 && v[0] == '-';
    let (int_hi, frac_lo) = match find_char(v, start, '.') {
        Some(p) => (p, p + 1),
        None => (n, n),
    };
    let count = (int_hi - start) + (n - frac_lo);
    let ghost digits = v@.subrange(start as int, int_hi as int) + v@.subrange(
        frac_lo as int,
        n as int,
    );
    proof {
        if find_from(v@, start as int, '.') is None {
            assert(digits =~= v@.subrange(start as int, n as int));
        }
    }
    if count < 1 || count > 19 {
        return None;
    }
    let first = match digits_value(v, start, int_hi, 0, Ghost(Seq::empty())) {
        None => {
            proof {
                assert(!all_digits(digits)) by {
                    let w = v@.subrange(start as int, int_hi as int);
                    let k = choose|k: int| 0 <= k < w.len() && !is_digit(#[trigger] w[k]);
                    assert(digits[k] == w[k]);
                }
            }
            return None;
        },
        Some(m) => {
            proof {
                assert(Seq::<char>::empty() + v@.subrange(start as int, int_hi as int)
                    =~= v@.subrange(start as int, int_hi as int));
            }
            m
        },
    };
    let ghost int_digits = v@.subrange(start as int, int_hi as int);
    let mantissa = match digits_value(v, frac_lo, n, first, Ghost(int_digits)) {
        None => {
            proof {
                assert(!all_digits(digits)) by {
                    let w = v@.subrange(frac_lo as int, n as int);
                    let k = choose|k: int| 0 <= k < w.len() && !is_digit(#[trigger] w[k]);
                    assert(digits[int_digits.len() + k] == w[k]);
                }
            }
            return None;
        },
        Some(m) => m,
    };
    proof {
        assert(int_digits + v@.subrange(frac_lo as int, n as int) =~= digits);
        assert(all_digits(digits));
        lemma_num_val_bound(digits);
        lemma_pow10_mono(digits.len(), 19);
        assert(pow10(19) == 10000000000000000000) by {
            reveal_with_fuel(pow10, 20);
        }
        assert(mantissa == num_val(digits) as u64);
    }
    let scale: u32 = (n - frac_lo) as u32;
    Some(TagValue { negative: neg, mantissa, scale })
}

/// A trimmed field with its surrounding double quotes removed, when both
/// are present.
pub open spec fn unquote(f: Seq<char>) -> Seq<char> {
    if f.len() >= 2 && f[0] == '"' && f.last() == '"' {
        f.subrange(1, f.len() - 1)
    } else {
        f
    }
}

/// The trimmed, unquoted field lying between positions `start` and `end`.
pub open spec fn field_at(s: Seq<char>, start: int, end: int) -> Seq<char> {
    unquote(trim(s.subrange(start, end)))
}

/// Splits `s` from position `pos` on into comma-separated fields.  A field
/// whose first non-whitespace character is a double quote keeps any commas
/// up to its closing quote; `None` means such a quote never closes.
pub open spec fn split_fields_from(s: Seq<char>, pos: int) -> Option<Seq<Seq<char>>>
    decreases s.len() - pos,
    via split_fields_from_dec
{
    if pos < 0 || pos >= s.len() {
        Some(Seq::empty())
    } else {
        let u0 = skip_ws(s, pos);
        if u0 < s.len() && s[u0] == '"' {
            match find_from(s, u0 + 1, '"') {
                None => None,
                Some(q) => match find_from(s, q + 1, ',') {
                    None => Some(seq![field_at(s, u0, s.len() as int)]),
                    Some(p) => match split_fields_from(s, p + 1) {
                        None => None,
                        Some(rest) => Some(seq![field_at(s, u0, p)] + rest),
                    },
                },
            }
        } else {
            match find_from(s, u0, ',') {
                None => Some(seq![field_at(s, u0, s.len() as int)]),
                Some(p) => match split_fields_from(s, p + 1) {
                    None => None,
                    Some(rest) => Some(seq![field_at(s, u0, p)] + rest),
                },
            }
        }
    }
}

#[via_fn]
proof fn split_fields_from_dec(s: Seq<char>, pos: int) {
    if 0 <= pos < s.len() {
        crate::text::lemma_skip_ws_bounds(s, pos);
        let u0 = skip_ws(s, pos);
        if u0 < s.len() && s[u0] == '"' {
            crate::text::lemma_find_from_bounds(s, u0 + 1, '"');
            if let Some(q) = find_from(s, u0 + 1, '"') {
                crate::text::lemma_find_from_bounds(s, q + 1, ',');
            }
        } else {
            crate::text::lemma_find_from_bounds(s, u0, ',');
        }
    }
}

/// The fields of a whole tag line.
pub open spec fn split_fields(s: Seq<char>) -> Option<Seq<Seq<char>>> {
    split_fields_from(s, 0)
}

/// Extracts the trimmed, unquoted field in the window `[start, end)`.
fn extract_field(v: &Vec<char>, start: usize, end: usize) -> (r: String)
    requires
        start <= end <= v@.len(),
    ensures
        r@ == field_at(v@, start as int, end as int),
{
    let (t0, t1) = trim_range(v, start, end);
    let ghost f = trim(v@.subrange(start as int, end as int));
    proof {
        assert(f == v@.subrange(t0 as int, t1 as int));
        if f.len() >= 2 {
            assert(f[0] == v@[t0 as int]);
            assert(f.last() == v@[t1 - 1]);
        }
    }
    if t1 - t0 >= 2 && v[t0] == '"' && v[t1 - 1] == '"' {
        let r = string_of(v, t0 + 1, t1 - 1);
        proof {
            assert(r@ =~= unquote(f));
        }
        r
    } else {
        string_of(v, t0, t1)
    }
}

/// Executable counterpart of `split_fields`.
fn split_fields_exec(v: &Vec<char>) -> (r: Option<Vec<String>>)
    ensures
        match r {
            Some(fs) => split_fields(v@) == Some(fs.deep_view()),
            None => split_fields(v@) is None,
        },
{
    let mut pos: usize = 0;
    let mut done: Vec<String> = Vec::new();
    proof {
        assert(done.deep_view() =~= Seq::<Seq<char>>::empty());
    }
    while pos < v.len()
        invariant
            pos <= v@.len(),
            (match split_fields_from(v@, pos as int) {
                Some(rest) => split_fields(v@) == Some(done.deep_view() + rest),
                None => split_fields(v@) is None,
            }),
        decreases v@.len() - pos,
    {
        let ghost old_deep = done.deep_view();
        let u0 = skip_ws_exec(v, pos);
        let comma_from: usize;
        if u0 < v.len() && v[u0] == '"' {
            match find_char(v, u0 + 1, '"') {
                None => {
                    return None;
                },
                Some(q) => {
                    comma_from = q + 1;
                },
            }
        } else {
            comma_from = u0;
        }
        match find_char(v, comma_from, ',') {
            None => {
                let f = extract_field(v, u0, v.len());
                proof {
                    assert(split_fields_from(v@, pos as int) == Some(
                        seq![field_at(v@, u0 as int, v@.len() as int)],
                    ));
                }
                done.push(f);
                proof {
                    assert(done.deep_view() =~= old_deep.push(f@));
                    assert(old_deep.push(f@) =~= old_deep + seq![
                        field_at(v@, u0 as int, v@.len() as int),
                    ]);
                }
                pos = v.len();
                proof {
                    assert(split_fields_from(v@, pos as int) == Some(Seq::<Seq<char>>::empty()));
                    assert(done.deep_view() + Seq::<Seq<char>>::empty() =~= done.deep_view());
                }
            },
            Some(p) => {
                let f = extract_field(v, u0, p);
                proof {
                    assert(split_fields_from(v@, pos as int) == (
                    match split_fields_from(v@, p + 1) {
                        None => None,
                        Some(rest) => Some(seq![field_at(v@, u0 as int, p as int)] + rest),
                    }));
                }
                done.push(f);
                proof {
                    assert(done.deep_view() =~= old_deep.push(f@));
                    if let Some(rest) = split_fields_from(v@, p + 1) {
                        assert(old_deep.push(f@) + rest =~= old_deep + (seq![
                            field_at(v@, u0 as int, p as int),
                        ] + rest));
                    }
                }
                pos = p + 1;
            },
        }
    }
    proof {
        assert(split_fields_from(v@, pos as int) == Some(Seq::<Seq<char>>::empty()));
        assert(done.deep_view() + Seq::<Seq<char>>::empty() =~= done.deep_view());
    }
    Some(done)
}

/// The whole tag-line grammar: split into fields, require three or four
/// of them, and read the final field as a decimal value.
pub open spec fn spec_parse_tag(s: Seq<char>) -> Result<SpecTag, TagParseError> {
    match split_fields(s) {
        None => Err(TagParseError::UnclosedQuote),
        Some(fs) => if fs.len() == 3 {
            spec_make_tag(fs[0], Seq::empty(), fs[1], fs[2])
        } else if fs.len() == 4 {
            spec_make_tag(fs[0], fs[1], fs[2], fs[3])
        } else {
            Err(TagParseError::WrongFieldCount)
        },
    }
}

pub open spec fn spec_make_tag(
    family: Seq<char>,
    loc: Seq<char>,
    tag: Seq<char>,
    value: Seq<char>,
) -> Result<SpecTag, TagParseError> {
    match spec_parse_decimal(value) {
        None => Err(TagParseError::BadValue),
        Some(v) => Ok(SpecTag { family, loc, tag, value: v }),
    }
}

impl Tag {
    /// Parses one tag line.
    pub fn parse(s: &str) -> (r: Result<Tag, TagParseError>)
        ensures
            match r {
                Ok(t) => spec_parse_tag(s@) == Ok::<SpecTag, TagParseError>(t@),
                Err(e) => spec_parse_tag(s@) == Err::<SpecTag, TagParseError>(e),
            },
    {
        let v = chars_of(s);
        Tag::parse_chars(&v)
    }

    /// Parses one tag line given as characters.
    pub fn parse_chars(v: &Vec<char>) -> (r: Result<Tag, TagParseError>)
        ensures
            match r {
                Ok(t) => spec_parse_tag(v@) == Ok::<SpecTag, TagParseError>(t@),
                Err(e) => spec_parse_tag(v@) == Err::<SpecTag, TagParseError>(e),
            },
    {
        let fs = match split_fields_exec(v) {
            None => {
                return Err(TagParseError::UnclosedQuote);
            },
            Some(fs) => fs,
        };
        if fs.len() != 3 && fs.len() != 4 {
            return Err(TagParseError::WrongFieldCount);
        }
        let four = fs.len() == 4;
        let family = fs[0].clone();
        let loc = if four {
            fs[1].clone()
        } else {
            String::new()
        };
        let tag = if four {
            fs[2].clone()
        } else {
            fs[1].clone()
        };
        let value_field = if four {
            &fs[3]
        } else {
            &fs[2]
        };
        let vchars = chars_of(value_field.as_str());
        proof {
            assert(fs.deep_view().len() == fs@.len());
            assert(fs.deep_view()[0] == fs@[0]@);
            assert(fs.deep_view()[1] == fs@[1]@);
            assert(fs.deep_view()[2] == fs@[2]@);
            if four {
                assert(fs.deep_view()[3] == fs@[3]@);
            }
        }
        match parse_decimal(&vchars) {
            None => Err(TagParseError::BadValue),
            Some(value) => Ok(Tag { family, loc, tag, value }),
        }
    }
}

impl core::str::FromStr for Tag {
    type Err = TagParseError;

    fn from_str(s: &str) -> Result<Tag, TagParseError> {
        Tag::parse(s)
    }
}

} // verus!
