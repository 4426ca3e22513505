//! The tag store: applies the tag grammar to every line of every
//! `.csv`-named file, in file order, stopping at the first malformed line.
use vstd::prelude::*;

use crate::tag::{spec_parse_tag, SpecTag, Tag, TagParseError};
use crate::text::{chars_of, ends_with_str, has_suffix, lines_of, split_lines, subvec};

verus! {

impl DeepView for Tag {
    type V = SpecTag;

    open spec fn deep_view(&self) -> SpecTag {
        self.view()
    }
}

/// Where a tag load failed: the file, the line within it (counting from
/// zero), and the grammar error.
#[derive(Clone, Debug)]
pub struct TagLoadError {
    pub file: String,
    pub line: usize,
    pub err: TagParseError,
}

/// The abstract content of a `TagLoadError`.
pub ghost struct SpecTagLoadError {
    pub file: Seq<char>,
    pub line: int,
    pub err: TagParseError,
}

impl View for TagLoadError {
    type V = SpecTagLoadError;

    open spec fn view(&self) -> SpecTagLoadError {
        SpecTagLoadError { file: self.file@, line: self.line as int, err: self.err }
    }
}

/// A tag file is recognised by its name alone.
pub open spec fn is_tag_file(name: Seq<char>) -> bool {
    has_suffix(name, seq!['.', 'c', 's', 'v'])
}

/// The records of one file's lines, or the first malformed line and its
/// error.
pub open spec fn spec_tag_lines(lines: Seq<Seq<char>>) -> Result<Seq<SpecTag>, (int, TagParseError)>
    decreases lines.len(),
{
    if lines.len() == 0 {
        Ok(Seq::empty())
    } else {
        match spec_parse_tag(lines[0]) {
            Err(e) => Err((0, e)),
            Ok(t) => match spec_tag_lines(lines.drop_first()) {
                Err(ie) => Err((ie.0 + 1, ie.1)),
                Ok(ts) => Ok(seq![t] + ts),
            },
        }
    }
}

/// The records of every `.csv` file among `files` (given as name and
/// content pairs), concatenated in file order, or the first error.
pub open spec fn spec_read_tags(files: Seq<(Seq<char>, Seq<char>)>) -> Result<
    Seq<SpecTag>,
    SpecTagLoadError,
>
    decreases files.len(),
{
    if files.len() == 0 {
        Ok(Seq::empty())
    } else {
        let (name, content) = files[0];
        if !is_tag_file(name) {
            spec_read_tags(files.drop_first())
        } else {
            match spec_tag_lines(split_lines(content)) {
                Err(ie) => Err(SpecTagLoadError { file: name, line: ie.0, err: ie.1 }),
                Ok(ts) => match spec_read_tags(files.drop_first()) {
                    Err(le) => Err(le),
                    Ok(more) => Ok(ts + more),
                },
            }
        }
    }
}

/// The abstract content of a list of (file name, file content) pairs.
pub open spec fn files_view(files: Seq<(String, String)>) -> Seq<(Seq<char>, Seq<char>)> {
    files.map_values(|f: (String, String)| (f.0@, f.1@))
}

/// Parses every line of one file's content onto the end of `out`,
/// reporting the first bad line instead if there is one.
fn read_tag_file(content: &str, out: &mut Vec<Tag>) -> (r: Option<(usize, TagParseError)>)
    ensures
        match r {
            None => spec_tag_lines(split_lines(content@)) matches Ok(ts)
                && final(out).deep_view() == old(out).deep_view() + ts,
            Some(ie) => spec_tag_lines(split_lines(content@)) == Err::<
                Seq<SpecTag>,
                (int, TagParseError),
            >((ie.0 as int, ie.1)),
        },
{
    let v = chars_of(content);
    let lines = lines_of(&v);
    let ghost ls = split_lines(v@);
    let ghost old_deep = old(out).deep_view();
    let mut i: usize = 0;
    let ghost mut acc: Seq<SpecTag> = Seq::empty();
    proof {
        assert(old_deep + acc =~= old_deep);
        assert(ls.skip(0) =~= ls);
        if let Ok(ts) = spec_tag_lines(ls) {
            assert(acc + ts =~= ts);
        }
    }
    while i < lines.len()
        invariant
            i <= lines@.len(),
            lines@.len() == ls.len(),
            ls == split_lines(v@),
            v@ == content@,
            forall|k: int|
                0 <= k < lines@.len() ==> #[trigger] lines@[k].0 <= lines@[k].1 <= v@.len()
                    && v@.subrange(lines@[k].0 as int, lines@[k].1 as int) == ls[k],
            out.deep_view() == old_deep + acc,
            (match spec_tag_lines(ls.skip(i as int)) {
                Ok(ts) => spec_tag_lines(ls) == Ok::<Seq<SpecTag>, (int, TagParseError)>(acc + ts),
                Err(ie) => spec_tag_lines(ls) == Err::<Seq<SpecTag>, (int, TagParseError)>(
                    (i + ie.0, ie.1),
                ),
            }),
        decreases lines@.len() - i,
    {
        let (lo, hi) = lines[i];
        let line = subvec(&v, lo, hi);
        proof {
            assert(line@ == ls[i as int]);
            assert(ls.skip(i as int)[0] == ls[i as int]);
            assert(ls.skip(i as int).drop_first() =~= ls.skip(i + 1));
        }
        match Tag::parse_chars(&line) {
            Err(e) => {
                proof {
                    assert(spec_tag_lines(ls.skip(i as int)) == Err::<
                        Seq<SpecTag>,
                        (int, TagParseError),
                    >((0, e)));
                }
                return Some((i, e));
            },
            Ok(t) => {
                let ghost prev_deep = out.deep_view();
                out.push(t);
                proof {
                    assert(out.deep_view() =~= prev_deep.push(t@));
                    let old_acc = acc;
                    acc = acc.push(t@);
                    assert(old_deep + acc =~= (old_deep + old_acc).push(t@));
                    if let Ok(ts) = spec_tag_lines(ls.skip(i + 1)) {
                        assert(acc + ts =~= old_acc + (seq![t@] + ts));
                    }
                }
                i = i + 1;
            },
        }
    }
    proof {
        assert(ls.skip(i as int) =~= Seq::<Seq<char>>::empty());
        assert(spec_tag_lines(ls.skip(i as int)) == Ok::<Seq<SpecTag>, (int, TagParseError)>(
            Seq::empty(),
        ));
        assert(acc + Seq::<SpecTag>::empty() =~= acc);
    }
    None
}

/// Reads tag records from the given (file name, file content) pairs,
/// taking only files named `*.csv`, in order; the first malformed line
/// anywhere fails the whole load.
pub fn read_tags(files: &Vec<(String, String)>) -> (r: Result<Vec<Tag>, TagLoadError>)
    ensures
        match r {
            Ok(ts) => spec_read_tags(files_view(files@)) == Ok::<Seq<SpecTag>, SpecTagLoadError>(
                ts.deep_view(),
            ),
            Err(e) => spec_read_tags(files_view(files@)) == Err::<Seq<SpecTag>, SpecTagLoadError>(
                e@,
            ),
        },
{
    let ghost fv = files_view(files@);
    let mut out: Vec<Tag> = Vec::new();
    let mut i: usize = 0;
    proof {
        assert(out.deep_view() =~= Seq::<SpecTag>::empty());
        assert(fv.skip(0) =~= fv);
        if let Ok(more) = spec_read_tags(fv) {
            assert(out.deep_view() + more =~= more);
        }
    }
    while i < files.len()
        invariant
            i <= files@.len(),
            fv == files_view(files@),
            fv.len() == files@.len(),
            (match spec_read_tags(fv.skip(i as int)) {
                Ok(more) => spec_read_tags(fv) == Ok::<Seq<SpecTag>, SpecTagLoadError>(
                    out.deep_view() + more,
                ),
                Err(le) => spec_read_tags(fv) == Err::<Seq<SpecTag>, SpecTagLoadError>(le),
            }),
        decreases files@.len() - i,
    {
        proof {
            assert(fv[i as int] == (files@[i as int].0@, files@[i as int].1@));
            assert(fv.skip(i as int)[0] == fv[i as int]);
            assert(fv.skip(i as int).drop_first() =~= fv.skip(i + 1));
        }
        let name_chars = chars_of(files[i].0.as_str());
        let csv = ends_with_str(&name_chars, ".csv");
        proof {
            reveal_strlit(".csv");
            assert(".csv"@ =~= seq!['.', 'c', 's', 'v']);
        }
        if csv {
            let ghost before = out.deep_view();
            match read_tag_file(files[i].1.as_str(), &mut out) {
                Some((line, err)) => {
                    let e = TagLoadError { file: files[i].0.clone(), line, err };
                    proof {
                        assert(spec_read_tags(fv.skip(i as int)) == Err::<
                            Seq<SpecTag>,
                            SpecTagLoadError,
                        >(e@));
                    }
                    return Err(e);
                },
                None => {
                    proof {
                        if let Ok(ts) = spec_tag_lines(split_lines(files@[i as int].1@)) {
                            if let Ok(more) = spec_read_tags(fv.skip(i + 1)) {
                                assert(out.deep_view() + more =~= before + (ts + more));
                            }
                        }
                    }
                },
            }
        }
        i = i + 1;
    }
    proof {
        assert(fv.skip(i as int) =~= Seq::<(Seq<char>, Seq<char>)>::empty());
        assert(out.deep_view() + Seq::<SpecTag>::empty() =~= out.deep_view());
    }
    Ok(out)
}

} // verus!
