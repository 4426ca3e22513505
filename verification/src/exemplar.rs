//! Picking the one variant that represents a family: upright style,
//! weight near 400 and a variable-font filename score highest; ties keep
//! the earliest variant.
use vstd::prelude::*;

use crate::family::{FamilyRecord, FontVariantRecord, SpecFont};
use crate::text::str_eq;

verus! {

/// Integer division by 100, truncating toward zero.
pub open spec fn div100_trunc(a: int) -> int {
    if a >= 0 {
        a / 100
    } else {
        -((-a) / 100)
    }
}

/// The filename marks a variable font: it contains `].`.
pub open spec fn is_variable_name(s: Seq<char>) -> bool {
    exists|i: int| 0 <= i && i + 1 < s.len() && #[trigger] s[i] == ']' && s[i + 1] == '.'
}

/// A variant's score: 16 for the `normal` style, minus one point per
/// hundred weight units away from 400 (truncated), plus 1 for a
/// variable-font filename.
pub open spec fn spec_score(f: SpecFont) -> int {
    (if f.style == "normal"@ {
        16int
    } else {
        0int
    }) - div100_trunc(f.weight - 400) + (if is_variable_name(f.filename) {
        1int
    } else {
        0int
    })
}

/// The index the left-to-right fold settles on: a later variant displaces
/// the held one only with a strictly greater score.
pub open spec fn spec_exemplar_idx(fonts: Seq<SpecFont>) -> int
    decreases fonts.len(),
{
    if fonts.len() <= 1 {
        0
    } else {
        let prev = spec_exemplar_idx(fonts.drop_last());
        if spec_score(fonts[prev]) >= spec_score(fonts.last()) {
            prev
        } else {
            fonts.len() - 1
        }
    }
}

/// The fold picks the first variant of maximal score: everything before
/// it scores strictly less, everything after it no more.
pub proof fn lemma_exemplar_first_max(fonts: Seq<SpecFont>)
    requires
        fonts.len() > 0,
    ensures
        0 <= spec_exemplar_idx(fonts) < fonts.len(),
        forall|j: int|
            0 <= j < spec_exemplar_idx(fonts) ==> spec_score(#[trigger] fonts[j]) < spec_score(
                fonts[spec_exemplar_idx(fonts)],
            ),
        forall|j: int|
            spec_exemplar_idx(fonts) <= j < fonts.len() ==> spec_score(#[trigger] fonts[j])
                <= spec_score(fonts[spec_exemplar_idx(fonts)]),
    decreases fonts.len(),
{
    if fonts.len() > 1 {
        lemma_exemplar_first_max(fonts.drop_last());
        assert(forall|j: int|
            0 <= j < fonts.len() - 1 ==> #[trigger] fonts[j] == fonts.drop_last()[j]);
    }
}

/// The choice depends only on the variants themselves: equal variant
/// sequences give equal choices, whatever else may differ around them.
pub proof fn lemma_exemplar_deterministic(a: Seq<SpecFont>, b: Seq<SpecFont>)
    requires
        a.len() == b.len(),
        forall|i: int|
            0 <= i < a.len() ==> (#[trigger] a[i]).style == b[i].style && a[i].weight
                == b[i].weight && a[i].filename == b[i].filename,
    ensures
        spec_exemplar_idx(a) == spec_exemplar_idx(b),
{
    assert forall|i: int| 0 <= i < a.len() implies #[trigger] a[i] == b[i] by {
        assert(a[i].style == b[i].style);
    }
    assert(a =~= b);
}

/// Whether `s` contains `].`.
fn contains_variable_mark(s: &str) -> (r: bool)
    ensures
        r == is_variable_name(s@),
{
    let n = s.unicode_len();
    if n < 2 {
        return false;
    }
    let mut i: usize = 0;
    while i + 1 < n
        invariant
            n == s@.len(),
            i < n,
            forall|k: int| 0 <= k < i ==> !(#[trigger] s@[k] == ']' && s@[k + 1] == '.'),
        decreases n - i,
    {
        if s.get_char(i) == ']' && s.get_char(i + 1) == '.' {
            return true;
        }
        i = i + 1;
    }
    false
}

/// The score of one variant.
pub fn exemplar_score(font: &FontVariantRecord) -> (r: i32)
    ensures
        r as int == spec_score(font@),
{
    let mut score: i64 = 0;
    if str_eq(font.style.as_str(), "normal") {
        score = 16;
    }
    let base: i64 = (font.weight as i64) - 400;
    let q: i64 = if base >= 0 {
        ((base as u64) / 100) as i64
    } else {
        -((((-base) as u64) / 100) as i64)
    };
    proof {
        if base >= 0 {
            assert(0 <= (base as u64) / 100 <= base as u64) by (nonlinear_arith);
        } else {
            assert(0 <= ((-base) as u64) / 100 <= (-base) as u64) by (nonlinear_arith);
        }
        assert(q == div100_trunc(font@.weight - 400));
    }
    score = score - q;
    if contains_variable_mark(font.filename.as_str()) {
        score = score + 1;
    }
    proof {
        assert(score as int == spec_score(font@));
    }
    score as i32
}

/// The representative variant of a family, or nothing for a family with
/// no variants.
pub fn exemplar(family: &FamilyRecord) -> (r: Option<&FontVariantRecord>)
    ensures
        match r {
            Some(f) => family.fonts@.len() > 0 && f@ == family@.fonts[spec_exemplar_idx(
                family@.fonts,
            )],
            None => family.fonts@.len() == 0,
        },
{
    if family.fonts.len() == 0 {
        return None;
    }
    let ghost fonts = family@.fonts;
    proof {
        assert(fonts.len() == family.fonts@.len());
    }
    let mut best: usize = 0;
    let mut i: usize = 1;
    proof {
        assert(fonts.take(1).len() == 1);
        assert(spec_exemplar_idx(fonts.take(1)) == 0);
    }
    while i < family.fonts.len()
        invariant
            1 <= i <= family.fonts@.len(),
            fonts == family@.fonts,
            fonts.len() == family.fonts@.len(),
            best < i,
            best as int == spec_exemplar_idx(fonts.take(i as int)),
        decreases family.fonts@.len() - i,
    {
        proof {
            assert(fonts.take(i + 1).drop_last() =~= fonts.take(i as int));
            assert(fonts.take(i + 1).last() == fonts[i as int]);
            assert(fonts.take(i as int)[best as int] == fonts[best as int]);
            assert(fonts[best as int] == family.fonts@[best as int]@);
            assert(fonts[i as int] == family.fonts@[i as int]@);
        }
        let sb = exemplar_score(&family.fonts[best]);
        let si = exemplar_score(&family.fonts[i]);
        if !(sb >= si) {
            best = i;
        }
        i = i + 1;
    }
    proof {
        assert(fonts.take(i as int) =~= fonts);
        assert(fonts[best as int] == family.fonts@[best as int]@);
    }
    Some(&family.fonts[best])
}

} // verus!
