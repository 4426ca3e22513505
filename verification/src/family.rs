//! Family descriptors: a named group of font variants.  A descriptor is
//! a block-structured text file; any `position { ... }` blocks are
//! stripped before parsing, unknown keys and blocks are skipped.
use vstd::prelude::*;

use crate::descriptor::{
    classify, classify_line, opt_str_view, parse_int, spec_parse_int, Line, ParseError, SpecLine,
};
use crate::text::{
    chars_of, find_char, find_from, lines_of, range_eq_str, skip_ws, skip_ws_exec, split_lines,
    str_eq, subvec,
};

verus! {

/// One font file belonging to a family.  A missing style or filename
/// field reads as empty; a missing weight reads as 400.
#[derive(Clone, Debug, PartialEq)]
pub struct FontVariantRecord {
    pub filename: String,
    pub style: String,
    pub weight: i32,
}

/// The abstract content of a `FontVariantRecord`.
pub ghost struct SpecFont {
    pub filename: Seq<char>,
    pub style: Seq<char>,
    pub weight: int,
}

impl View for FontVariantRecord {
    type V = SpecFont;

    open spec fn view(&self) -> SpecFont {
        SpecFont { filename: self.filename@, style: self.style@, weight: self.weight as int }
    }
}

impl DeepView for FontVariantRecord {
    type V = SpecFont;

    open spec fn deep_view(&self) -> SpecFont {
        self.view()
    }
}

/// A named group of font variants, with optional primary-language and
/// primary-script ids.
#[derive(Clone, Debug, PartialEq)]
pub struct FamilyRecord {
    pub name: String,
    pub primary_language: Option<String>,
    pub primary_script: Option<String>,
    pub fonts: Vec<FontVariantRecord>,
}

/// The abstract content of a `FamilyRecord`.
pub ghost struct SpecFamily {
    pub name: Seq<char>,
    pub primary_language: Option<Seq<char>>,
    pub primary_script: Option<Seq<char>>,
    pub fonts: Seq<SpecFont>,
}

impl View for FamilyRecord {
    type V = SpecFamily;

    open spec fn view(&self) -> SpecFamily {
        SpecFamily {
            name: self.name@,
            primary_language: opt_str_view(self.primary_language),
            primary_script: opt_str_view(self.primary_script),
            fonts: self.fonts.deep_view(),
        }
    }
}

/// If the text at `i` reads `position`, one or more whitespace
/// characters (ASCII whitespace, as `is_ws` draws the line), `{`,
/// anything but `}`, then `}`, the position just after that closing
/// brace.
pub open spec fn pos_match_end(s: Seq<char>, i: int) -> Option<int> {
    if !(0 <= i && i + 8 <= s.len() && s.subrange(i, i + 8) == "position"@) {
        None
    } else {
        let k = skip_ws(s, i + 8);
        if k == i + 8 {
            None
        } else if k < s.len() && s[k] == '{' {
            match find_from(s, k + 1, '}') {
                None => None,
                Some(e) => Some(e + 1),
            }
        } else {
            None
        }
    }
}

/// `s` from position `pos` on, with every `position { ... }` block
/// removed.
pub open spec fn strip_from(s: Seq<char>, pos: int) -> Seq<char>
    decreases s.len() - pos,
    via strip_from_dec
{
    if pos < 0 || pos >= s.len() {
        Seq::empty()
    } else {
        match pos_match_end(s, pos) {
            Some(e) => strip_from(s, e),
            None => seq![s[pos]] + strip_from(s, pos + 1),
        }
    }
}

#[via_fn]
proof fn strip_from_dec(s: Seq<char>, pos: int) {
    if 0 <= pos < s.len() {
        if let Some(e) = pos_match_end(s, pos) {
            crate::text::lemma_skip_ws_bounds(s, pos + 8);
            let k = skip_ws(s, pos + 8);
            crate::text::lemma_find_from_bounds(s, k + 1, '}');
        }
    }
}

/// The preprocessing pass over a whole descriptor.
pub open spec fn strip_position_blocks(s: Seq<char>) -> Seq<char> {
    strip_from(s, 0)
}

/// Executable counterpart of `strip_position_blocks`.
pub fn strip_position_exec(v: &Vec<char>) -> (r: Vec<char>)
    ensures
        r@ == strip_position_blocks(v@),
{
    let mut out: Vec<char> = Vec::new();
    let mut pos: usize = 0;
    proof {
        assert(out@ + strip_from(v@, 0) =~= strip_from(v@, 0));
    }
    while pos < v.len()
        invariant
            pos <= v@.len(),
            strip_position_blocks(v@) == out@ + strip_from(v@, pos as int),
        decreases v@.len() - pos,
    {
        let mut match_end: Option<usize> = None;
        if v.len() >= 8 && pos <= v.len() - 8 && range_eq_str(v, pos, pos + 8, "position") {
            let k = skip_ws_exec(v, pos + 8);
            if k > pos + 8 && k < v.len() && v[k] == '{' {
                if let Some(e) = find_char(v, k + 1, '}') {
                    match_end = Some(e + 1);
                }
            }
        }
        match match_end {
            Some(e) => {
                proof {
                    assert(pos_match_end(v@, pos as int) == Some(e as int));
                }
                pos = e;
            },
            None => {
                proof {
                    assert(pos_match_end(v@, pos as int) is None);
                }
                let ghost pre = out@;
                let c = v[pos];
                out.push(c);
                proof {
                    assert(out@ =~= pre.push(c));
                    assert(pre + (seq![c] + strip_from(v@, pos + 1)) =~= out@ + strip_from(
                        v@,
                        pos + 1,
                    ));
                }
                pos = pos + 1;
            },
        }
    }
    proof {
        assert(strip_from(v@, pos as int) =~= Seq::<char>::empty());
        assert(out@ + Seq::<char>::empty() =~= out@);
    }
    out
}

/// A font block in progress: the fields seen so far.
pub ghost struct SpecFontPartial {
    pub style: Option<Seq<char>>,
    pub weight: Option<int>,
    pub filename: Option<Seq<char>>,
}

/// The parser state after some prefix of the lines.
pub ghost struct FamState {
    pub err: Option<ParseError>,
    pub name: Option<Seq<char>>,
    pub primary_language: Option<Seq<char>>,
    pub primary_script: Option<Seq<char>>,
    pub fonts: Seq<SpecFont>,
    pub cur: Option<SpecFontPartial>,
    pub skip_depth: nat,
}

pub open spec fn fam_init() -> FamState {
    FamState {
        err: None,
        name: None,
        primary_language: None,
        primary_script: None,
        fonts: Seq::empty(),
        cur: None,
        skip_depth: 0,
    }
}

/// A finished font block: absent fields get their defaults.
pub open spec fn finish_font(p: SpecFontPartial) -> SpecFont {
    SpecFont {
        filename: match p.filename {
            Some(f) => f,
            None => Seq::empty(),
        },
        style: match p.style {
            Some(s) => s,
            None => Seq::empty(),
        },
        weight: match p.weight {
            Some(w) => w,
            None => 400,
        },
    }
}

/// One step of the family parser on the line `l` (line number `ln`).
pub open spec fn fam_step(st: FamState, l: Seq<char>, ln: int) -> FamState {
    if st.err is Some {
        st
    } else {
        match classify(l) {
            SpecLine::Blank => st,
            SpecLine::Bad => FamState { err: Some(ParseError::MalformedLine(ln as usize)), ..st },
            SpecLine::Open(k) => {
                if st.skip_depth > 0 {
                    FamState { skip_depth: st.skip_depth + 1, ..st }
                } else if st.cur is Some {
                    FamState { skip_depth: 1, ..st }
                } else if k == "fonts"@ {
                    FamState {
                        cur: Some(SpecFontPartial { style: None, weight: None, filename: None }),
                        ..st
                    }
                } else {
                    FamState { skip_depth: 1, ..st }
                }
            },
            SpecLine::Close => {
                if st.skip_depth > 0 {
                    FamState { skip_depth: (st.skip_depth - 1) as nat, ..st }
                } else {
                    match st.cur {
                        Some(p) => FamState {
                            fonts: st.fonts.push(finish_font(p)),
                            cur: None,
                            ..st
                        },
                        None => FamState {
                            err: Some(ParseError::UnmatchedClose(ln as usize)),
                            ..st
                        },
                    }
                }
            },
            SpecLine::StrField(k, val) => {
                if st.skip_depth > 0 {
                    st
                } else {
                    match st.cur {
                        Some(p) => if k == "style"@ {
                            FamState { cur: Some(SpecFontPartial { style: Some(val), ..p }), ..st }
                        } else if k == "filename"@ {
                            FamState {
                                cur: Some(SpecFontPartial { filename: Some(val), ..p }),
                                ..st
                            }
                        } else {
                            st
                        },
                        None => if k == "name"@ {
                            FamState { name: Some(val), ..st }
                        } else if k == "primary_language"@ {
                            FamState { primary_language: Some(val), ..st }
                        } else if k == "primary_script"@ {
                            FamState { primary_script: Some(val), ..st }
                        } else {
                            st
                        },
                    }
                }
            },
            SpecLine::TokField(k, val) => {
                if st.skip_depth > 0 {
                    st
                } else {
                    match st.cur {
                        Some(p) => if k == "weight"@ {
                            match spec_parse_int(val) {
                                Some(w) => if -2147483648 <= w <= 2147483647 {
                                    FamState {
                                        cur: Some(SpecFontPartial { weight: Some(w), ..p }),
                                        ..st
                                    }
                                } else {
                                    FamState {
                                        err: Some(ParseError::BadInteger(ln as usize)),
                                        ..st
                                    }
                                },
                                None => FamState {
                                    err: Some(ParseError::BadInteger(ln as usize)),
                                    ..st
                                },
                            }
                        } else {
                            st
                        },
                        None => st,
                    }
                }
            },
        }
    }
}

/// The parser state after the first `n` lines.
pub open spec fn fam_fold(lines: Seq<Seq<char>>, n: int) -> FamState
    decreases n,
{
    if n <= 0 {
        fam_init()
    } else {
        fam_step(fam_fold(lines, n - 1), lines[n - 1], n - 1)
    }
}

/// Once the parser has failed, further lines change nothing.
pub proof fn lemma_fam_err_absorb(lines: Seq<Seq<char>>, i: int, n: int)
    requires
        0 <= i <= n,
        fam_fold(lines, i).err is Some,
    ensures
        fam_fold(lines, n) == fam_fold(lines, i),
    decreases n - i,
{
    if n > i {
        lemma_fam_err_absorb(lines, i, n - 1);
    }
}

/// The family read from a fully parsed state.
pub open spec fn fam_finish(st: FamState) -> Result<SpecFamily, ParseError> {
    match st.err {
        Some(e) => Err(e),
        None => if st.skip_depth > 0 || st.cur is Some {
            Err(ParseError::UnclosedBlock)
        } else {
            match st.name {
                None => Err(ParseError::MissingName),
                Some(nm) => if nm.len() == 0 {
                    Err(ParseError::MissingName)
                } else {
                    Ok(
                        SpecFamily {
                            name: nm,
                            primary_language: st.primary_language,
                            primary_script: st.primary_script,
                            fonts: st.fonts,
                        },
                    )
                },
            }
        },
    }
}

/// What `read_family` returns on a descriptor's text.
pub open spec fn spec_read_family(s: Seq<char>) -> Result<SpecFamily, ParseError> {
    let lines = split_lines(strip_position_blocks(s));
    fam_finish(fam_fold(lines, lines.len() as int))
}

/// Parses one family descriptor.
pub fn read_family(s: &str) -> (r: Result<FamilyRecord, ParseError>)
    ensures
        match r {
            Ok(f) => spec_read_family(s@) == Ok::<SpecFamily, ParseError>(f@),
            Err(e) => spec_read_family(s@) == Err::<SpecFamily, ParseError>(e),
        },
{
    let raw = chars_of(s);
    let v = strip_position_exec(&raw);
    let lines = lines_of(&v);
    let ghost ls = split_lines(v@);
    let mut name: Option<String> = None;
    let mut plang: Option<String> = None;
    let mut pscript: Option<String> = None;
    let mut fonts: Vec<FontVariantRecord> = Vec::new();
    let mut in_fonts = false;
    let mut cur_style: Option<String> = None;
    let mut cur_weight: Option<i32> = None;
    let mut cur_filename: Option<String> = None;
    let mut skip_depth: usize = 0;
    let mut i: usize = 0;
    proof {
        assert(fonts.deep_view() =~= Seq::<SpecFont>::empty());
    }
    while i < lines.len()
        invariant
            i <= lines@.len(),
            lines@.len() == ls.len(),
            ls == split_lines(v@),
            ls == split_lines(strip_position_blocks(s@)),
            forall|k: int|
                0 <= k < lines@.len() ==> #[trigger] lines@[k].0 <= lines@[k].1 <= v@.len()
                    && v@.subrange(lines@[k].0 as int, lines@[k].1 as int) == ls[k],
            skip_depth <= i,
            fam_fold(ls, i as int) == (FamState {
                err: None,
                name: opt_str_view(name),
                primary_language: opt_str_view(plang),
                primary_script: opt_str_view(pscript),
                fonts: fonts.deep_view(),
                cur: if in_fonts {
                    Some(
                        SpecFontPartial {
                            style: opt_str_view(cur_style),
                            weight: match cur_weight {
                                Some(w) => Some(w as int),
                                None => None,
                            },
                            filename: opt_str_view(cur_filename),
                        },
                    )
                } else {
                    None
                },
                skip_depth: skip_depth as nat,
            }),
        decreases lines@.len() - i,
    {
        let ghost st = fam_fold(ls, i as int);
        proof {
            assert(fam_fold(ls, i + 1) == fam_step(st, ls[i as int], i as int));
        }
        let (lo, hi) = lines[i];
        let line = subvec(&v, lo, hi);
        proof {
            assert(line@ == ls[i as int]);
        }
        match classify_line(&line) {
            Line::Blank => {},
            Line::Bad => {
                proof {
                    lemma_fam_err_absorb(ls, i + 1, ls.len() as int);
                }
                return Err(ParseError::MalformedLine(i));
            },
            Line::Open(k) => {
                if skip_depth > 0 {
                    skip_depth = skip_depth + 1;
                } else if in_fonts {
                    skip_depth = 1;
                } else if str_eq(k.as_str(), "fonts") {
                    in_fonts = true;
                    cur_style = None;
                    cur_weight = None;
                    cur_filename = None;
                } else {
                    skip_depth = 1;
                }
            },
            Line::Close => {
                if skip_depth > 0 {
                    skip_depth = skip_depth - 1;
                } else if in_fonts {
                    let ghost p = (match fam_fold(ls, i as int).cur {
                        Some(p) => p,
                        None => SpecFontPartial { style: None, weight: None, filename: None },
                    });
                    let sty = cur_style;
                    let wgt = cur_weight;
                    let fnm = cur_filename;
                    cur_style = None;
                    cur_weight = None;
                    cur_filename = None;
                    in_fonts = false;
                    let ghost pre = fonts.deep_view();
                    let font = FontVariantRecord {
                        filename: match fnm {
                            Some(x) => x,
                            None => String::new(),
                        },
                        style: match sty {
                            Some(x) => x,
                            None => String::new(),
                        },
                        weight: match wgt {
                            Some(x) => x,
                            None => 400,
                        },
                    };
                    proof {
                        assert(font@ == finish_font(p));
                    }
                    fonts.push(font);
                    proof {
                        assert(fonts.deep_view() =~= pre.push(finish_font(p)));
                    }
                } else {
                    proof {
                        lemma_fam_err_absorb(ls, i + 1, ls.len() as int);
                    }
                    return Err(ParseError::UnmatchedClose(i));
                }
            },
            Line::StrField(k, val) => {
                if skip_depth > 0 {
                    // a field inside a skipped block
                } else if in_fonts {
                    if str_eq(k.as_str(), "style") {
                        cur_style = Some(val);
                    } else if str_eq(k.as_str(), "filename") {
                        cur_filename = Some(val);
                    }
                } else {
                    if str_eq(k.as_str(), "name") {
                        name = Some(val);
                    } else if str_eq(k.as_str(), "primary_language") {
                        plang = Some(val);
                    } else if str_eq(k.as_str(), "primary_script") {
                        pscript = Some(val);
                    }
                }
            },
            Line::TokField(k, val) => {
                if skip_depth == 0 && in_fonts && str_eq(k.as_str(), "weight") {
                    let vc = chars_of(val.as_str());
                    match parse_int(&vc) {
                        Some(x) => {
                            if -2147483648 <= x && x <= 2147483647 {
                                cur_weight = Some(x as i32);
                            } else {
                                proof {
                                    lemma_fam_err_absorb(ls, i + 1, ls.len() as int);
                                }
                                return Err(ParseError::BadInteger(i));
                            }
                        },
                        None => {
                            proof {
                                lemma_fam_err_absorb(ls, i + 1, ls.len() as int);
                            }
                            return Err(ParseError::BadInteger(i));
                        },
                    }
                }
            },
        }
        i = i + 1;
    }
    proof {
        assert(fam_fold(ls, ls.len() as int) == fam_fold(ls, i as int));
    }
    if skip_depth > 0 || in_fonts {
        return Err(ParseError::UnclosedBlock);
    }
    match name {
        None => Err(ParseError::MissingName),
        Some(nm) => {
            if nm.as_str().unicode_len() == 0 {
                Err(ParseError::MissingName)
            } else {
                let f = FamilyRecord {
                    name: nm,
                    primary_language: plang,
                    primary_script: pscript,
                    fonts,
                };
                Ok(f)
            }
        },
    }
}

} // verus!
