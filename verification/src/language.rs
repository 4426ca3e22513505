//! Language descriptors: a language/script id, a population used as a
//! tie-break magnitude, and sample text for rendering.
use vstd::prelude::*;

use crate::descriptor::{
    classify, classify_line, opt_str_view, parse_int, spec_parse_int, Line, ParseError, SpecLine,
};
use crate::text::{chars_of, lines_of, split_lines, str_eq, subvec};

verus! {

/// A language/script descriptor.  A missing population reads as zero.
#[derive(Clone, Debug, PartialEq)]
pub struct LanguageRecord {
    pub id: String,
    pub script: Option<String>,
    pub population: i64,
    /// The `styles` entry of the descriptor's sample-text block, when
    /// there is one: a string of sample glyphs.
    pub sample_text_styles: Option<String>,
}

/// The abstract content of a `LanguageRecord`.
pub ghost struct SpecLanguage {
    pub id: Seq<char>,
    pub script: Option<Seq<char>>,
    pub population: int,
    pub sample_text_styles: Option<Seq<char>>,
}

impl View for LanguageRecord {
    type V = SpecLanguage;

    open spec fn view(&self) -> SpecLanguage {
        SpecLanguage {
            id: self.id@,
            script: opt_str_view(self.script),
            population: self.population as int,
            sample_text_styles: opt_str_view(self.sample_text_styles),
        }
    }
}

/// The parser state after some prefix of the lines.
pub ghost struct LangState {
    pub err: Option<ParseError>,
    pub id: Option<Seq<char>>,
    pub script: Option<Seq<char>>,
    pub population: Option<int>,
    pub styles: Option<Seq<char>>,
    pub in_sample: bool,
    pub skip_depth: nat,
}

pub open spec fn lang_init() -> LangState {
    LangState {
        err: None,
        id: None,
        script: None,
        population: None,
        styles: None,
        in_sample: false,
        skip_depth: 0,
    }
}

/// One step of the language parser on the line `l` (line number `ln`).
pub open spec fn lang_step(st: LangState, l: Seq<char>, ln: int) -> LangState {
    if st.err is Some {
        st
    } else {
        match classify(l) {
            SpecLine::Blank => st,
            SpecLine::Bad => LangState { err: Some(ParseError::MalformedLine(ln as usize)), ..st },
            SpecLine::Open(k) => {
                if st.skip_depth > 0 {
                    LangState { skip_depth: st.skip_depth + 1, ..st }
                } else if st.in_sample {
                    LangState { skip_depth: 1, ..st }
                } else if k == "sample_text"@ {
                    LangState { in_sample: true, ..st }
                } else {
                    LangState { skip_depth: 1, ..st }
                }
            },
            SpecLine::Close => {
                if st.skip_depth > 0 {
                    LangState { skip_depth: (st.skip_depth - 1) as nat, ..st }
                } else if st.in_sample {
                    LangState { in_sample: false, ..st }
                } else {
                    LangState { err: Some(ParseError::UnmatchedClose(ln as usize)), ..st }
                }
            },
            SpecLine::StrField(k, val) => {
                if st.skip_depth > 0 {
                    st
                } else if st.in_sample {
                    if k == "styles"@ {
                        LangState { styles: Some(val), ..st }
                    } else {
                        st
                    }
                } else {
                    if k == "id"@ {
                        LangState { id: Some(val), ..st }
                    } else if k == "script"@ {
                        LangState { script: Some(val), ..st }
                    } else {
                        st
                    }
                }
            },
            SpecLine::TokField(k, val) => {
                if st.skip_depth == 0 && !st.in_sample && k == "population"@ {
                    match spec_parse_int(val) {
                        Some(p) => LangState { population: Some(p), ..st },
                        None => LangState { err: Some(ParseError::BadInteger(ln as usize)), ..st },
                    }
                } else {
                    st
                }
            },
        }
    }
}

/// The parser state after the first `n` lines.
pub open spec fn lang_fold(lines: Seq<Seq<char>>, n: int) -> LangState
    decreases n,
{
    if n <= 0 {
        lang_init()
    } else {
        lang_step(lang_fold(lines, n - 1), lines[n - 1], n - 1)
    }
}

/// Once the parser has failed, further lines change nothing.
pub proof fn lemma_lang_err_absorb(lines: Seq<Seq<char>>, i: int, n: int)
    requires
        0 <= i <= n,
        lang_fold(lines, i).err is Some,
    ensures
        lang_fold(lines, n) == lang_fold(lines, i),
    decreases n - i,
{
    if n > i {
        lemma_lang_err_absorb(lines, i, n - 1);
    }
}

/// The language read from a fully parsed state.
pub open spec fn lang_finish(st: LangState) -> Result<SpecLanguage, ParseError> {
    match st.err {
        Some(e) => Err(e),
        None => if st.skip_depth > 0 || st.in_sample {
            Err(ParseError::UnclosedBlock)
        } else {
            match st.id {
                None => Err(ParseError::MissingId),
                Some(id) => if id.len() == 0 {
                    Err(ParseError::MissingId)
                } else {
                    Ok(
                        SpecLanguage {
                            id: id,
                            script: st.script,
                            population: match st.population {
                                Some(p) => p,
                                None => 0,
                            },
                            sample_text_styles: st.styles,
                        },
                    )
                },
            }
        },
    }
}

/// What `read_language` returns on a descriptor's text.
pub open spec fn spec_read_language(s: Seq<char>) -> Result<SpecLanguage, ParseError> {
    let lines = split_lines(s);
    lang_finish(lang_fold(lines, lines.len() as int))
}

/// Parses one language descriptor.
pub fn read_language(s: &str) -> (r: Result<LanguageRecord, ParseError>)
    ensures
        match r {
            Ok(l) => spec_read_language(s@) == Ok::<SpecLanguage, ParseError>(l@),
            Err(e) => spec_read_language(s@) == Err::<SpecLanguage, ParseError>(e),
        },
{
    let v = chars_of(s);
    let lines = lines_of(&v);
    let ghost ls = split_lines(v@);
    let mut id: Option<String> = None;
    let mut script: Option<String> = None;
    let mut population: Option<i64> = None;
    let mut styles: Option<String> = None;
    let mut in_sample = false;
    let mut skip_depth: usize = 0;
    let mut i: usize = 0;
    while i < lines.len()
        invariant
            i <= lines@.len(),
            lines@.len() == ls.len(),
            ls == split_lines(v@),
            ls == split_lines(s@),
            forall|k: int|
                0 <= k < lines@.len() ==> #[trigger] lines@[k].0 <= lines@[k].1 <= v@.len()
                    && v@.subrange(lines@[k].0 as int, lines@[k].1 as int) == ls[k],
            skip_depth <= i,
            lang_fold(ls, i as int) == (LangState {
                err: None,
                id: opt_str_view(id),
                script: opt_str_view(script),
                population: match population {
                    Some(p) => Some(p as int),
                    None => None,
                },
                styles: opt_str_view(styles),
                in_sample: in_sample,
                skip_depth: skip_depth as nat,
            }),
        decreases lines@.len() - i,
    {
        let ghost st = lang_fold(ls, i as int);
        proof {
            assert(lang_fold(ls, i + 1) == lang_step(st, ls[i as int], i as int));
        }
        let (lo, hi) = lines[i];
        let line = subvec(&v, lo, hi);
        proof {
            assert(line@ == ls[i as int]);
        }
        match classify_line(&line) {
            Line::Blank => {},
            Line::Bad => {
                proof {
                    lemma_lang_err_absorb(ls, i + 1, ls.len() as int);
                }
                return Err(ParseError::MalformedLine(i));
            },
            Line::Open(k) => {
                if skip_depth > 0 {
                    skip_depth = skip_depth + 1;
                } else if in_sample {
                    skip_depth = 1;
                } else if str_eq(k.as_str(), "sample_text") {
                    in_sample = true;
                } else {
                    skip_depth = 1;
                }
            },
            Line::Close => {
                if skip_depth > 0 {
                    skip_depth = skip_depth - 1;
                } else if in_sample {
                    in_sample = false;
                } else {
                    proof {
                        lemma_lang_err_absorb(ls, i + 1, ls.len() as int);
                    }
                    return Err(ParseError::UnmatchedClose(i));
                }
            },
            Line::StrField(k, val) => {
                if skip_depth > 0 {
                    // a field inside a skipped block
                } else if in_sample {
                    if str_eq(k.as_str(), "styles") {
                        styles = Some(val);
                    }
                } else {
                    if str_eq(k.as_str(), "id") {
                        id = Some(val);
                    } else if str_eq(k.as_str(), "script") {
                        script = Some(val);
                    }
                }
            },
            Line::TokField(k, val) => {
                if skip_depth == 0 && !in_sample && str_eq(k.as_str(), "population") {
                    let vc = chars_of(val.as_str());
                    match parse_int(&vc) {
                        Some(x) => {
                            population = Some(x);
                        },
                        None => {
                            proof {
                                lemma_lang_err_absorb(ls, i + 1, ls.len() as int);
                            }
                            return Err(ParseError::BadInteger(i));
                        },
                    }
                }
            },
        }
        i = i + 1;
    }
    proof {
        assert(lang_fold(ls, ls.len() as int) == lang_fold(ls, i as int));
    }
    if skip_depth > 0 || in_sample {
        return Err(ParseError::UnclosedBlock);
    }
    match id {
        None => Err(ParseError::MissingId),
        Some(idv) => {
            if idv.as_str().unicode_len() == 0 {
                Err(ParseError::MissingId)
            } else {
                let l = LanguageRecord {
                    id: idv,
                    script,
                    population: match population {
                        Some(p) => p,
                        None => 0,
                    },
                    sample_text_styles: styles,
                };
                Ok(l)
            }
        },
    }
}

} // verus!
