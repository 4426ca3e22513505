//! Path-string arithmetic: the directory part of a path, and joining a
//! directory with a file name using `/` as the separator.
use vstd::prelude::*;

use crate::family::FontVariantRecord;
use crate::text::{chars_of, push_char, string_of};

verus! {

/// Position of the last occurrence of `c` in `s`.
pub open spec fn rfind(s: Seq<char>, c: char) -> Option<int>
    decreases s.len(),
{
    if s.len() == 0 {
        None
    } else if s.last() == c {
        Some(s.len() - 1)
    } else {
        rfind(s.drop_last(), c)
    }
}

/// Everything before the last `/`, empty when there is none.
pub open spec fn parent_dir(p: Seq<char>) -> Seq<char> {
    match rfind(p, '/') {
        Some(k) => p.take(k),
        None => Seq::empty(),
    }
}

/// `dir/name`, or just `name` when the directory part is empty.
pub open spec fn join_path(dir: Seq<char>, name: Seq<char>) -> Seq<char> {
    if dir.len() == 0 {
        name
    } else {
        dir + seq!['/'] + name
    }
}

/// Where a variant's binary is expected: beside its family's descriptor.
pub open spec fn spec_binary_path(family_path: Seq<char>, filename: Seq<char>) -> Seq<char> {
    join_path(parent_dir(family_path), filename)
}

/// Executable counterpart of `rfind`.
pub fn rfind_char(v: &Vec<char>, c: char) -> (r: Option<usize>)
    ensures
        match r {
            Some(k) => rfind(v@, c) == Some(k as int) && k < v@.len(),
            None => rfind(v@, c) is None,
        },
{
    let mut j: usize = v.len();
    proof {
        assert(v@.take(v@.len() as int) =~= v@);
    }
    while j > 0
        invariant
            j <= v@.len(),
            rfind(v@, c) == rfind(v@.take(j as int), c),
        decreases j,
    {
        proof {
            assert(v@.take(j as int).last() == v@[j - 1]);
            assert(v@.take(j as int).drop_last() =~= v@.take(j - 1));
        }
        if v[j - 1] == c {
            return Some(j - 1);
        }
        j = j - 1;
    }
    None
}

/// The expected on-disk path of a file lying beside the given descriptor.
pub fn sibling_path(family_path: &str, filename: &str) -> (r: String)
    ensures
        r@ == spec_binary_path(family_path@, filename@),
{
    let v = chars_of(family_path);
    match rfind_char(&v, '/') {
        None => filename.to_owned(),
        Some(k) => {
            if k == 0 {
                proof {
                    assert(v@.take(0) =~= Seq::<char>::empty());
                }
                filename.to_owned()
            } else {
                let mut s = string_of(&v, 0, k);
                push_char(&mut s, '/');
                s.append(filename);
                proof {
                    assert(s@ =~= v@.take(k as int) + seq!['/'] + filename@);
                }
                s
            }
        },
    }
}

/// The output path for a rendering of the given variant: the variant's
/// filename with `ext` appended, inside `dir`.
pub fn output_file(dir: &str, exemplar: &FontVariantRecord, ext: &str) -> (r: String)
    ensures
        r@ == join_path(dir@, exemplar.filename@ + ext@),
{
    let mut s = dir.to_owned();
    if s.as_str().unicode_len() == 0 {
        let mut name = exemplar.filename.clone();
        name.append(ext);
        proof {
            assert(name@ =~= exemplar.filename@ + ext@);
        }
        name
    } else {
        push_char(&mut s, '/');
        s.append(exemplar.filename.as_str());
        s.append(ext);
        proof {
            assert(s@ =~= dir@ + seq!['/'] + (exemplar.filename@ + ext@));
        }
        s
    }
}

} // verus!
