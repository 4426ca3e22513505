//! The font-file index: a mapping from variant filename back to the
//! position of the owning family, built from the successfully parsed
//! families in order, later families overwriting earlier claims.
use vstd::prelude::*;

use crate::descriptor::ParseError;
use crate::family::{FamilyRecord, FontVariantRecord};
use crate::text::{chars_of, str_eq, string_of};

verus! {

/// The mapping an entry list stands for: entries applied in order, the
/// later entry for a key winning.
pub open spec fn entries_map(es: Seq<(String, usize)>) -> Map<Seq<char>, int>
    decreases es.len(),
{
    if es.len() == 0 {
        Map::empty()
    } else {
        entries_map(es.drop_last()).insert(es.last().0@, es.last().1 as int)
    }
}

/// A mapping from variant filename to owning family position.
pub struct FontFileIndex {
    entries: Vec<(String, usize)>,
}

impl View for FontFileIndex {
    type V = Map<Seq<char>, int>;

    closed spec fn view(&self) -> Map<Seq<char>, int> {
        entries_map(self.entries@)
    }
}

/// The index map extended with one family's fonts, in order.
pub open spec fn family_fonts_map(
    m0: Map<Seq<char>, int>,
    fonts: Seq<FontVariantRecord>,
    fam: int,
) -> Map<Seq<char>, int>
    decreases fonts.len(),
{
    if fonts.len() == 0 {
        m0
    } else {
        family_fonts_map(m0, fonts.drop_last(), fam).insert(fonts.last().filename@, fam)
    }
}

/// The index map of a family list: only successfully parsed families
/// contribute, in list order.
pub open spec fn spec_index(fams: Seq<(String, Result<FamilyRecord, ParseError>)>) -> Map<
    Seq<char>,
    int,
>
    decreases fams.len(),
{
    if fams.len() == 0 {
        Map::empty()
    } else {
        let m = spec_index(fams.drop_last());
        match fams.last().1 {
            Ok(f) => family_fonts_map(m, f.fonts@, fams.len() - 1),
            Err(_) => m,
        }
    }
}

/// Every value the index maps to is the position of a successfully
/// parsed family.
pub proof fn lemma_index_values_valid(
    fams: Seq<(String, Result<FamilyRecord, ParseError>)>,
    k: Seq<char>,
)
    requires
        spec_index(fams).contains_key(k),
    ensures
        0 <= spec_index(fams)[k] < fams.len(),
        fams[spec_index(fams)[k]].1 is Ok,
    decreases fams.len(),
{
    if fams.len() > 0 {
        let m = spec_index(fams.drop_last());
        match fams.last().1 {
            Ok(f) => {
                lemma_fonts_map_values(m, f.fonts@, fams.len() - 1, k);
                if !(spec_index(fams)[k] == fams.len() - 1) {
                    lemma_index_values_valid(fams.drop_last(), k);
                }
            },
            Err(_) => {
                lemma_index_values_valid(fams.drop_last(), k);
            },
        }
    }
}

/// A key of the extended map either came from the added fonts (and maps
/// to the new family) or was in the base map with its old value.
proof fn lemma_fonts_map_values(
    m0: Map<Seq<char>, int>,
    fonts: Seq<FontVariantRecord>,
    fam: int,
    k: Seq<char>,
)
    requires
        family_fonts_map(m0, fonts, fam).contains_key(k),
    ensures
        family_fonts_map(m0, fonts, fam)[k] == fam || (m0.contains_key(k) && family_fonts_map(
            m0,
            fonts,
            fam,
        )[k] == m0[k]),
    decreases fonts.len(),
{
    if fonts.len() > 0 && k != fonts.last().filename@ {
        lemma_fonts_map_values(m0, fonts.drop_last(), fam, k);
    }
}

impl FontFileIndex {
    /// An empty index.
    pub fn new() -> (r: FontFileIndex)
        ensures
            r@ == Map::<Seq<char>, int>::empty(),
    {
        FontFileIndex { entries: Vec::new() }
    }

    /// Records that `filename` belongs to the family at position `fam`,
    /// displacing any earlier claim.
    pub fn insert(&mut self, filename: String, fam: usize)
        ensures
            final(self)@ == old(self)@.insert(filename@, fam as int),
    {
        let ghost pre = self.entries@;
        self.entries.push((filename, fam));
        proof {
            assert(self.entries@.drop_last() =~= pre);
        }
    }

    /// The family position a filename maps to, if any.
    pub fn get(&self, filename: &str) -> (r: Option<usize>)
        ensures
            match r {
                Some(i) => self@.contains_key(filename@) && self@[filename@] == i as int,
                None => !self@.contains_key(filename@),
            },
    {
        let mut j: usize = self.entries.len();
        proof {
            assert(self.entries@.take(self.entries@.len() as int) =~= self.entries@);
        }
        while j > 0
            invariant
                j <= self.entries@.len(),
                entries_map(self.entries@).contains_key(filename@) == entries_map(
                    self.entries@.take(j as int),
                ).contains_key(filename@),
                entries_map(self.entries@).contains_key(filename@) ==> entries_map(
                    self.entries@,
                )[filename@] == entries_map(self.entries@.take(j as int))[filename@],
            decreases j,
        {
            proof {
                assert(self.entries@.take(j as int).drop_last() =~= self.entries@.take(j - 1));
                assert(self.entries@.take(j as int).last() == self.entries@[j - 1]);
            }
            let hit = str_eq(self.entries[j - 1].0.as_str(), filename);
            if hit {
                return Some(self.entries[j - 1].1);
            }
            j = j - 1;
        }
        proof {
            assert(self.entries@.take(0) =~= Seq::<(String, usize)>::empty());
        }
        None
    }
}

/// Builds the index of a family list.
pub fn build_index(families: &Vec<(String, Result<FamilyRecord, ParseError>)>) -> (r: FontFileIndex)
    ensures
        r@ == spec_index(families@),
{
    let mut idx = FontFileIndex::new();
    let mut i: usize = 0;
    proof {
        assert(families@.take(0) =~= Seq::<(String, Result<FamilyRecord, ParseError>)>::empty());
    }
    while i < families.len()
        invariant
            i <= families@.len(),
            idx@ == spec_index(families@.take(i as int)),
        decreases families@.len() - i,
    {
        proof {
            assert(families@.take(i + 1).drop_last() =~= families@.take(i as int));
            assert(families@.take(i + 1).last() == families@[i as int]);
        }
        match &families[i].1 {
            Ok(f) => {
                let mut j: usize = 0;
                proof {
                    assert(f.fonts@.take(0) =~= Seq::<FontVariantRecord>::empty());
                }
                while j < f.fonts.len()
                    invariant
                        j <= f.fonts@.len(),
                        i < families@.len(),
                        families@[i as int].1 matches Ok(g) && g == *f,
                        idx@ == family_fonts_map(
                            spec_index(families@.take(i as int)),
                            f.fonts@.take(j as int),
                            i as int,
                        ),
                    decreases f.fonts@.len() - j,
                {
                    proof {
                        assert(f.fonts@.take(j + 1).drop_last() =~= f.fonts@.take(j as int));
                        assert(f.fonts@.take(j + 1).last() == f.fonts@[j as int]);
                    }
                    idx.insert(f.fonts[j].filename.clone(), i);
                    j = j + 1;
                }
                proof {
                    assert(f.fonts@.take(f.fonts@.len() as int) =~= f.fonts@);
                }
            },
            Err(_) => {},
        }
        i = i + 1;
    }
    proof {
        assert(families@.take(families@.len() as int) =~= families@);
    }
    idx
}

/// The fonts of the family at position `i`, empty for a failed parse.
pub open spec fn fam_fonts(
    fams: Seq<(String, Result<FamilyRecord, ParseError>)>,
    i: int,
) -> Seq<FontVariantRecord> {
    match fams[i].1 {
        Ok(f) => f.fonts@,
        Err(_) => Seq::empty(),
    }
}

/// No two variants anywhere in the corpus share a filename.
pub open spec fn filenames_unique(fams: Seq<(String, Result<FamilyRecord, ParseError>)>) -> bool {
    forall|i1: int, j1: int, i2: int, j2: int|
        0 <= i1 < fams.len() && 0 <= j1 < fam_fonts(fams, i1).len() && 0 <= i2 < fams.len() && 0
            <= j2 < fam_fonts(fams, i2).len() && (i1 != i2 || j1 != j2) ==> #[trigger] fam_fonts(
            fams,
            i1,
        )[j1].filename@ != #[trigger] fam_fonts(fams, i2)[j2].filename@
}

/// Under a family's own fonts with pairwise distinct filenames, each
/// font's filename maps to that family.
proof fn lemma_fonts_map_complete(
    m0: Map<Seq<char>, int>,
    fonts: Seq<FontVariantRecord>,
    fam: int,
    j: int,
)
    requires
        0 <= j < fonts.len(),
        forall|a: int, b: int|
            0 <= a < fonts.len() && 0 <= b < fonts.len() && a != b ==> #[trigger] fonts[a].filename@
                != #[trigger] fonts[b].filename@,
    ensures
        family_fonts_map(m0, fonts, fam).contains_key(fonts[j].filename@),
        family_fonts_map(m0, fonts, fam)[fonts[j].filename@] == fam,
    decreases fonts.len(),
{
    if j == fonts.len() - 1 {
    } else {
        assert(forall|a: int|
            0 <= a < fonts.len() - 1 ==> #[trigger] fonts.drop_last()[a] == fonts[a]);
        lemma_fonts_map_complete(m0, fonts.drop_last(), fam, j);
        assert(fonts[j].filename@ != fonts.last().filename@);
    }
}

/// A key that is none of the added fonts' filenames keeps its base
/// mapping.
proof fn lemma_fonts_map_frame(
    m0: Map<Seq<char>, int>,
    fonts: Seq<FontVariantRecord>,
    fam: int,
    k: Seq<char>,
)
    requires
        forall|a: int| 0 <= a < fonts.len() ==> #[trigger] fonts[a].filename@ != k,
    ensures
        family_fonts_map(m0, fonts, fam).contains_key(k) == m0.contains_key(k),
        m0.contains_key(k) ==> family_fonts_map(m0, fonts, fam)[k] == m0[k],
    decreases fonts.len(),
{
    if fonts.len() > 0 {
        assert(forall|a: int|
            0 <= a < fonts.len() - 1 ==> #[trigger] fonts.drop_last()[a] == fonts[a]);
        lemma_fonts_map_frame(m0, fonts.drop_last(), fam, k);
    }
}

/// Font-file index correctness: when no two variants in the corpus share
/// a filename, looking up any variant of any successfully parsed family
/// gives back exactly that family's position.
pub proof fn lemma_index_complete(
    fams: Seq<(String, Result<FamilyRecord, ParseError>)>,
    i: int,
    j: int,
)
    requires
        filenames_unique(fams),
        0 <= i < fams.len(),
        fams[i].1 is Ok,
        0 <= j < fam_fonts(fams, i).len(),
    ensures
        spec_index(fams).contains_key(fam_fonts(fams, i)[j].filename@),
        spec_index(fams)[fam_fonts(fams, i)[j].filename@] == i,
    decreases fams.len(),
{
    let name = fam_fonts(fams, i)[j].filename@;
    let pre = fams.drop_last();
    assert(forall|a: int| 0 <= a < fams.len() - 1 ==> #[trigger] pre[a] == fams[a]);
    assert(forall|a: int|
        0 <= a < fams.len() - 1 ==> #[trigger] fam_fonts(pre, a) == fam_fonts(fams, a));
    if i == fams.len() - 1 {
        let m = spec_index(pre);
        let f = fams.last().1->Ok_0;
        assert(fam_fonts(fams, i) == f.fonts@);
        assert(forall|a: int, b: int|
            0 <= a < f.fonts@.len() && 0 <= b < f.fonts@.len() && a != b
                ==> #[trigger] f.fonts@[a].filename@ != #[trigger] f.fonts@[b].filename@) by {
            assert(forall|a: int, b: int|
                0 <= a < fam_fonts(fams, i).len() && 0 <= b < fam_fonts(fams, i).len() && a != b
                    ==> #[trigger] fam_fonts(fams, i)[a].filename@ != #[trigger] fam_fonts(
                    fams,
                    i,
                )[b].filename@);
        }
        lemma_fonts_map_complete(m, f.fonts@, i, j);
    } else {
        assert(filenames_unique(pre)) by {
            assert(forall|i1: int, j1: int, i2: int, j2: int|
                0 <= i1 < pre.len() && 0 <= j1 < fam_fonts(pre, i1).len() && 0 <= i2 < pre.len()
                    && 0 <= j2 < fam_fonts(pre, i2).len() && (i1 != i2 || j1 != j2)
                    ==> #[trigger] fam_fonts(pre, i1)[j1].filename@ != #[trigger] fam_fonts(
                    pre,
                    i2,
                )[j2].filename@);
        }
        lemma_index_complete(pre, i, j);
        match fams.last().1 {
            Ok(g) => {
                assert(fam_fonts(fams, fams.len() - 1) == g.fonts@);
                assert(forall|a: int| 0 <= a < g.fonts@.len() ==> #[trigger] g.fonts@[a].filename@
                    != name) by {
                    assert(forall|a: int|
                        0 <= a < fam_fonts(fams, fams.len() - 1).len() ==> #[trigger] fam_fonts(
                            fams,
                            fams.len() - 1,
                        )[a].filename@ != fam_fonts(fams, i)[j].filename@);
                }
                lemma_fonts_map_frame(spec_index(pre), g.fonts@, fams.len() - 1, name);
            },
            Err(_) => {},
        }
    }
}

/// The owning family of a variant: the path and record at the position
/// the index maps the variant's filename to.
pub fn owner_of<'a>(
    families: &'a Vec<(String, Result<FamilyRecord, ParseError>)>,
    index: &FontFileIndex,
    font: &FontVariantRecord,
) -> (r: Option<(&'a String, &'a FamilyRecord)>)
    requires
        index@ == spec_index(families@),
    ensures
        match r {
            Some(pf) => spec_index(families@).contains_key(font.filename@) && ({
                let i = spec_index(families@)[font.filename@];
                0 <= i < families@.len() && families@[i].0 == *pf.0 && families@[i].1 == Ok::<
                    FamilyRecord,
                    ParseError,
                >(*pf.1)
            }),
            None => !spec_index(families@).contains_key(font.filename@),
        },
{
    match index.get(font.filename.as_str()) {
        None => None,
        Some(i) => {
            proof {
                lemma_index_values_valid(families@, font.filename@);
            }
            match &families[i].1 {
                Ok(f) => Some((&families[i].0, f)),
                Err(_) => None,
            }
        },
    }
}

} // verus!
