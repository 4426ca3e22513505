//! The corpus handle: owns the raw descriptor sources, an optional
//! path filter, and the memoized caches.  Each cache is computed at most
//! once, on first access, and never recomputed.
//!
//! The caller reads the corpus tree and hands every file in as a
//! `(path, content)` pair; the handle selects, parses, indexes and
//! resolves from there, so all verification covers everything past the
//! file reads.
use vstd::prelude::*;

use crate::descriptor::ParseError;
use crate::family::{read_family, spec_read_family, FamilyRecord, FontVariantRecord, SpecFamily};
use crate::filter::{filter_accepts, filter_view, PathFilter};
use crate::index::{build_index, owner_of, spec_index, FontFileIndex};
use crate::language::{read_language, spec_read_language, LanguageRecord, SpecLanguage};
use crate::paths::{sibling_path, spec_binary_path};
use crate::resolve::{find_language, spec_find_lang, spec_primary_language, ResolveError};
use crate::store::{files_view, read_tags, spec_read_tags, TagLoadError};
use crate::tag::SpecTag;
use crate::tag::Tag;
use crate::text::{chars_of, contains_str, ends_with_str, has_substr, has_suffix, str_eq};

verus! {

/// A path names a family descriptor when its final component is
/// `METADATA.pb`.
pub open spec fn is_descriptor_path(p: Seq<char>) -> bool {
    p == "METADATA.pb"@ || has_suffix(p, "/METADATA.pb"@)
}

fn is_descriptor_path_exec(p: &str) -> (r: bool)
    ensures
        r == is_descriptor_path(p@),
{
    if str_eq(p, "METADATA.pb") {
        return true;
    }
    let v = chars_of(p);
    ends_with_str(&v, "/METADATA.pb")
}

/// A path names a language descriptor when it lies under the fixed
/// languages subtree and carries the descriptor extension.
pub open spec fn is_language_path(p: Seq<char>) -> bool {
    has_substr(p, "gflanguages/data/languages"@) && has_suffix(p, ".textproto"@)
}

fn is_language_path_exec(p: &str) -> (r: bool)
    ensures
        r == is_language_path(p@),
{
    let v = chars_of(p);
    contains_str(&v, "gflanguages/data/languages") && ends_with_str(&v, ".textproto")
}

/// A parse result agrees with what the family grammar says of the text.
pub open spec fn family_parse_matches(
    res: Result<FamilyRecord, ParseError>,
    text: Seq<char>,
) -> bool {
    match res {
        Ok(f) => spec_read_family(text) == Ok::<SpecFamily, ParseError>(f@),
        Err(e) => spec_read_family(text) == Err::<SpecFamily, ParseError>(e),
    }
}

/// A parse result agrees with what the language grammar says of the
/// text.
pub open spec fn language_parse_matches(
    res: Result<LanguageRecord, ParseError>,
    text: Seq<char>,
) -> bool {
    match res {
        Ok(l) => spec_read_language(text) == Ok::<SpecLanguage, ParseError>(l@),
        Err(e) => spec_read_language(text) == Err::<SpecLanguage, ParseError>(e),
    }
}

/// The positions the family scan keeps, in order: the descriptor-named
/// paths that the filter (when there is one) matches.
pub open spec fn selected_indices(
    sources: Seq<(String, String)>,
    filter: Option<Seq<char>>,
) -> Seq<int>
    decreases sources.len(),
{
    if sources.len() == 0 {
        Seq::empty()
    } else {
        let pre = selected_indices(sources.drop_last(), filter);
        if is_descriptor_path(sources.last().0@) && filter_accepts(filter, sources.last().0@) {
            pre.push(sources.len() - 1)
        } else {
            pre
        }
    }
}

/// What a finished family load holds: exactly one entry per selected
/// source, in discovery order, each entry pairing the source's path with
/// the source's own parse.
pub open spec fn families_loaded(
    fams: Seq<(String, Result<FamilyRecord, ParseError>)>,
    sources: Seq<(String, String)>,
    filter: Option<Seq<char>>,
) -> bool {
    let picks = selected_indices(sources, filter);
    fams.len() == picks.len() && forall|a: int|
        0 <= a < fams.len() ==> 0 <= #[trigger] picks[a] < sources.len() && fams[a].0
            == sources[picks[a]].0 && family_parse_matches(fams[a].1, sources[picks[a]].1@)
}

/// Every position the scan keeps is in range, names a descriptor the
/// filter matches, and the positions ascend (discovery order).
pub proof fn lemma_selected_indices_ok(sources: Seq<(String, String)>, filter: Option<Seq<char>>)
    ensures
        forall|a: int|
            0 <= a < selected_indices(sources, filter).len() ==> 0 <= #[trigger] selected_indices(
                sources,
                filter,
            )[a] < sources.len() && is_descriptor_path(
                sources[selected_indices(sources, filter)[a]].0@,
            ) && filter_accepts(filter, sources[selected_indices(sources, filter)[a]].0@),
        forall|a: int, b: int|
            0 <= a < b < selected_indices(sources, filter).len() ==> selected_indices(
                sources,
                filter,
            )[a] < selected_indices(sources, filter)[b],
    decreases sources.len(),
{
    if sources.len() > 0 {
        lemma_selected_indices_ok(sources.drop_last(), filter);
        let pre = selected_indices(sources.drop_last(), filter);
        let cur = selected_indices(sources, filter);
        assert(forall|a: int|
            0 <= a < sources.len() - 1 ==> #[trigger] sources.drop_last()[a] == sources[a]);
        assert forall|a: int|
            0 <= a < cur.len() implies 0 <= #[trigger] cur[a] < sources.len()
            && is_descriptor_path(sources[cur[a]].0@) && filter_accepts(
            filter,
            sources[cur[a]].0@,
        ) by {
            if a < pre.len() {
                assert(cur[a] == pre[a]);
            }
        }
        assert forall|a: int, b: int| 0 <= a < b < cur.len() implies cur[a] < cur[b] by {
            if b < pre.len() {
                assert(cur[a] == pre[a] && cur[b] == pre[b]);
            } else if a < pre.len() {
                assert(cur[a] == pre[a]);
            }
        }
    }
}

/// Every in-range position that names a descriptor the filter matches is
/// kept: the scan misses nothing that qualifies.
pub proof fn lemma_selected_indices_complete(
    sources: Seq<(String, String)>,
    filter: Option<Seq<char>>,
    i: int,
)
    requires
        0 <= i < sources.len(),
        is_descriptor_path(sources[i].0@),
        filter_accepts(filter, sources[i].0@),
    ensures
        selected_indices(sources, filter).contains(i),
    decreases sources.len(),
{
    let pre = selected_indices(sources.drop_last(), filter);
    let cur = selected_indices(sources, filter);
    if i == sources.len() - 1 {
        assert(cur.last() == i);
        assert(cur.contains(i)) by {
            assert(cur[cur.len() - 1] == i);
        }
    } else {
        assert(sources.drop_last()[i] == sources[i]);
        lemma_selected_indices_complete(sources.drop_last(), filter, i);
        let k = choose|k: int| 0 <= k < pre.len() && pre[k] == i;
        assert(cur[k] == i);
    }
}

/// Fault tolerance: a family load has exactly one entry per kept source,
/// in discovery order, and each entry's outcome is its own source's
/// parse — so a malformed descriptor is recorded as an error in place
/// and leaves every other entry untouched.
pub proof fn lemma_fault_tolerance(
    fams: Seq<(String, Result<FamilyRecord, ParseError>)>,
    sources: Seq<(String, String)>,
    filter: Option<Seq<char>>,
)
    requires
        families_loaded(fams, sources, filter),
    ensures
        fams.len() == selected_indices(sources, filter).len(),
        forall|a: int|
            0 <= a < fams.len() ==> 0 <= #[trigger] selected_indices(sources, filter)[a]
                < sources.len() && fams[a].0 == sources[selected_indices(sources, filter)[a]].0
                && family_parse_matches(
                fams[a].1,
                sources[selected_indices(sources, filter)[a]].1@,
            ) && is_descriptor_path(sources[selected_indices(sources, filter)[a]].0@)
                && filter_accepts(filter, sources[selected_indices(sources, filter)[a]].0@),
        forall|a: int, b: int|
            0 <= a < b < fams.len() ==> selected_indices(sources, filter)[a] < selected_indices(
                sources,
                filter,
            )[b],
{
    lemma_selected_indices_ok(sources, filter);
}

/// The kept positions with position `j` taken out of the source list:
/// `j` itself dropped, positions above it shifted down by one.
pub open spec fn picks_without(picks: Seq<int>, j: int) -> Seq<int>
    decreases picks.len(),
{
    if picks.len() == 0 {
        Seq::empty()
    } else {
        let pre = picks_without(picks.drop_last(), j);
        if picks.last() == j {
            pre
        } else if picks.last() > j {
            pre.push(picks.last() - 1)
        } else {
            pre.push(picks.last())
        }
    }
}

/// `picks_without` leaves positions below `j` alone.
proof fn lemma_picks_without_low(picks: Seq<int>, j: int)
    requires
        forall|a: int| 0 <= a < picks.len() ==> #[trigger] picks[a] < j,
    ensures
        picks_without(picks, j) == picks,
    decreases picks.len(),
{
    if picks.len() > 0 {
        assert(forall|a: int|
            0 <= a < picks.len() - 1 ==> #[trigger] picks.drop_last()[a] == picks[a]);
        lemma_picks_without_low(picks.drop_last(), j);
        assert(picks_without(picks, j) =~= picks);
    } else {
        assert(picks_without(picks, j) =~= picks);
    }
}

/// Removing one source removes exactly its own contribution to the scan:
/// the kept positions of the shortened list are those of the full list
/// with position `j` taken out.
pub proof fn lemma_selection_under_removal(
    sources: Seq<(String, String)>,
    filter: Option<Seq<char>>,
    j: int,
)
    requires
        0 <= j < sources.len(),
    ensures
        selected_indices(sources.remove(j), filter) == picks_without(
            selected_indices(sources, filter),
            j,
        ),
    decreases sources.len(),
{
    let picks1 = selected_indices(sources, filter);
    let pre = sources.drop_last();
    let prepicks = selected_indices(pre, filter);
    if j == sources.len() - 1 {
        assert(sources.remove(j) =~= pre);
        lemma_selected_indices_ok(pre, filter);
        lemma_picks_without_low(prepicks, j);
        if is_descriptor_path(sources.last().0@) && filter_accepts(filter, sources.last().0@) {
            assert(picks1 == prepicks.push(j));
            assert(picks1.drop_last() =~= prepicks);
            assert(picks1.last() == j);
        }
    } else {
        let s2 = sources.remove(j);
        sources.remove_ensures(j);
        assert(s2.len() == sources.len() - 1);
        assert(s2.last() == sources.last());
        assert(s2.drop_last() =~= pre.remove(j)) by {
            pre.remove_ensures(j);
        }
        lemma_selection_under_removal(pre, filter, j);
        if is_descriptor_path(sources.last().0@) && filter_accepts(filter, sources.last().0@) {
            assert(picks1 == prepicks.push(sources.len() - 1));
            assert(picks1.drop_last() =~= prepicks);
            assert(picks1.last() == sources.len() - 1 > j);
            assert(selected_indices(s2, filter) == selected_indices(pre.remove(j), filter).push(
                s2.len() - 1,
            ));
            assert(picks_without(picks1, j) == picks_without(prepicks, j).push(
                sources.len() - 2,
            ));
        } else {
            assert(picks1 == prepicks);
            assert(selected_indices(s2, filter) == selected_indices(pre.remove(j), filter));
        }
    }
}

/// Two parse results pinned to the same text: both succeed with the same
/// content, or both fail with the same error.
pub open spec fn same_outcome(
    r1: Result<FamilyRecord, ParseError>,
    r2: Result<FamilyRecord, ParseError>,
) -> bool {
    match (r1, r2) {
        (Ok(f1), Ok(f2)) => f1@ == f2@,
        (Err(e1), Err(e2)) => e1 == e2,
        _ => false,
    }
}

/// An entry's content depends only on its own source: any two loads
/// agree, path and outcome, on entries drawn from equal sources.  With
/// `lemma_selection_under_removal`, this says a corpus with one source
/// removed yields the very entries of the full load, minus the removed
/// source's own — one bad descriptor never perturbs the others.
pub proof fn lemma_entries_independent(
    fams1: Seq<(String, Result<FamilyRecord, ParseError>)>,
    sources1: Seq<(String, String)>,
    filter1: Option<Seq<char>>,
    fams2: Seq<(String, Result<FamilyRecord, ParseError>)>,
    sources2: Seq<(String, String)>,
    filter2: Option<Seq<char>>,
    a1: int,
    a2: int,
)
    requires
        families_loaded(fams1, sources1, filter1),
        families_loaded(fams2, sources2, filter2),
        0 <= a1 < fams1.len(),
        0 <= a2 < fams2.len(),
        sources1[selected_indices(sources1, filter1)[a1]] == sources2[selected_indices(
            sources2,
            filter2,
        )[a2]],
    ensures
        fams1[a1].0 == fams2[a2].0,
        same_outcome(fams1[a1].1, fams2[a2].1),
{
    let text = sources1[selected_indices(sources1, filter1)[a1]].1@;
    assert(family_parse_matches(fams1[a1].1, text));
    assert(family_parse_matches(fams2[a2].1, text));
}

/// The language sources that the fixed selection keeps, in order.
pub open spec fn language_selected(sources: Seq<(String, String)>) -> Seq<(String, String)>
    decreases sources.len(),
{
    if sources.len() == 0 {
        Seq::empty()
    } else {
        let pre = language_selected(sources.drop_last());
        if is_language_path(sources.last().0@) {
            pre.push(sources.last())
        } else {
            pre
        }
    }
}

/// What a finished language load holds: the parse of every selected
/// source, in order.
pub open spec fn languages_loaded(
    langs: Seq<Result<LanguageRecord, ParseError>>,
    sources: Seq<(String, String)>,
) -> bool {
    langs.len() == language_selected(sources).len() && forall|a: int|
        0 <= a < langs.len() ==> language_parse_matches(
            #[trigger] langs[a],
            language_selected(sources)[a].1@,
        )
}

/// What a finished tag load holds.
pub open spec fn tags_loaded(res: Result<Vec<Tag>, TagLoadError>, sources: Seq<(String, String)>,) -> bool {
    match res {
        Ok(ts) => spec_read_tags(files_view(sources)) == Ok::<Seq<SpecTag>, crate::store::SpecTagLoadError>(ts.deep_view()),
        Err(e) => spec_read_tags(files_view(sources)) == Err::<Seq<SpecTag>, crate::store::SpecTagLoadError>(e@),
    }
}

/// The corpus handle.
pub struct GoogleFonts {
    family_sources: Vec<(String, String)>,
    language_sources: Vec<(String, String)>,
    tag_sources: Vec<(String, String)>,
    family_filter: Option<PathFilter>,
    families: Option<Vec<(String, Result<FamilyRecord, ParseError>)>>,
    languages: Option<Vec<Result<LanguageRecord, ParseError>>>,
    family_by_font_file: Option<FontFileIndex>,
    tags: Option<Result<Vec<Tag>, TagLoadError>>,
}

impl GoogleFonts {
    /// The family sources the handle was given.
    pub closed spec fn spec_family_sources(&self) -> Seq<(String, String)> {
        self.family_sources@
    }

    /// The language sources the handle was given.
    pub closed spec fn spec_language_sources(&self) -> Seq<(String, String)> {
        self.language_sources@
    }

    /// The tag sources the handle was given.
    pub closed spec fn spec_tag_sources(&self) -> Seq<(String, String)> {
        self.tag_sources@
    }

    /// The pattern of the handle's path filter, when it has one.
    pub closed spec fn spec_filter(&self) -> Option<Seq<char>> {
        filter_view(self.family_filter)
    }

    /// The family cache.
    pub closed spec fn spec_families(&self) -> Option<
        Seq<(String, Result<FamilyRecord, ParseError>)>,
    > {
        match self.families {
            Some(v) => Some(v@),
            None => None,
        }
    }

    /// The language cache.
    pub closed spec fn spec_languages(&self) -> Option<Seq<Result<LanguageRecord, ParseError>>> {
        match self.languages {
            Some(v) => Some(v@),
            None => None,
        }
    }

    /// The font-file index cache.
    pub closed spec fn spec_font_index(&self) -> Option<Map<Seq<char>, int>> {
        match self.family_by_font_file {
            Some(ix) => Some(ix@),
            None => None,
        }
    }

    /// The tag cache.
    pub closed spec fn spec_tags(&self) -> Option<Result<Vec<Tag>, TagLoadError>> {
        self.tags
    }

    /// The handle was configured as this one was.
    pub closed spec fn same_config(&self, other: &GoogleFonts) -> bool {
        self.family_sources == other.family_sources && self.language_sources
            == other.language_sources && self.tag_sources == other.tag_sources
            && self.family_filter == other.family_filter
    }

    /// The index cache, when present, indexes the family cache.
    pub closed spec fn wf(&self) -> bool {
        match self.family_by_font_file {
            Some(ix) => self.families matches Some(f) && ix@ == spec_index(f@),
            None => true,
        }
    }

    /// A fresh handle over pre-read sources: `family_sources` the
    /// `(path, content)` of every file under the corpus root,
    /// `language_sources` those of the languages subtree,
    /// `tag_sources` the `(name, content)` of the tag directory's files.
    /// All caches start empty.
    pub fn new(
        family_sources: Vec<(String, String)>,
        language_sources: Vec<(String, String)>,
        tag_sources: Vec<(String, String)>,
        family_filter: Option<PathFilter>,
    ) -> (r: GoogleFonts)
        ensures
            r.wf(),
            r.spec_family_sources() == family_sources@,
            r.spec_language_sources() == language_sources@,
            r.spec_tag_sources() == tag_sources@,
            r.spec_filter() == filter_view(family_filter),
            r.spec_families() is None,
            r.spec_languages() is None,
            r.spec_font_index() is None,
            r.spec_tags() is None,
    {
        GoogleFonts {
            family_sources,
            language_sources,
            tag_sources,
            family_filter,
            families: None,
            languages: None,
            family_by_font_file: None,
            tags: None,
        }
    }

    /// The discovered families: one `(path, parse result)` pair per
    /// selected descriptor, in discovery order, computed on first call
    /// and cached.
    pub fn families(&mut self) -> (r: &Vec<(String, Result<FamilyRecord, ParseError>)>)
        requires
            old(self).wf(),
        ensures
            final(self).wf(),
            final(self).same_config(old(self)),
            final(self).spec_languages() == old(self).spec_languages(),
            final(self).spec_tags() == old(self).spec_tags(),
            final(self).spec_font_index() == old(self).spec_font_index(),
            final(self).spec_families() == Some(r@),
            old(self).spec_families() matches Some(v) ==> r@ == v && *final(self) == *old(self),
            old(self).spec_families() is None ==> families_loaded(
                r@,
                old(self).spec_family_sources(),
                old(self).spec_filter(),
            ),
    {
        if self.families.is_none() {
            let ghost pat = self.spec_filter();
            let ghost src = self.family_sources@;
            let mut out: Vec<(String, Result<FamilyRecord, ParseError>)> = Vec::new();
            let mut i: usize = 0;
            proof {
                assert(src.take(0) =~= Seq::<(String, String)>::empty());
            }
            while i < self.family_sources.len()
                invariant
                    i <= self.family_sources@.len(),
                    src == self.family_sources@,
                    pat == self.spec_filter(),
                    families_loaded(out@, src.take(i as int), pat),
                decreases self.family_sources@.len() - i,
            {
                let ghost s1 = src.take(i as int);
                let ghost s2 = src.take(i + 1);
                let ghost picks1 = selected_indices(s1, pat);
                proof {
                    assert(s2.drop_last() =~= s1);
                    assert(s2.last() == src[i as int]);
                    lemma_selected_indices_ok(s1, pat);
                    assert(forall|k: int| 0 <= k < s1.len() ==> #[trigger] s2[k] == s1[k]);
                }
                let path = &self.family_sources[i].0;
                let is_desc = is_descriptor_path_exec(path.as_str());
                let keep = is_desc && (match &self.family_filter {
                    Some(f) => f.is_match(path.as_str()),
                    None => true,
                });
                proof {
                    assert(keep == (is_descriptor_path(src[i as int].0@) && filter_accepts(
                        pat,
                        src[i as int].0@,
                    )));
                }
                if keep {
                    let parsed = read_family(self.family_sources[i].1.as_str());
                    let ghost old_out = out@;
                    out.push((path.clone(), parsed));
                    proof {
                        assert(selected_indices(s2, pat) == picks1.push(i as int));
                        assert(families_loaded(out@, s2, pat)) by {
                            assert(forall|a: int|
                                0 <= a < old_out.len() ==> #[trigger] out@[a] == old_out[a]);
                            assert(out@[old_out.len() as int] == (
                            self.family_sources@[i as int].0,
                            parsed,
                            ));
                            assert(forall|a: int|
                                0 <= a < picks1.len() ==> #[trigger] picks1.push(i as int)[a]
                                    == picks1[a]);
                        }
                    }
                } else {
                    proof {
                        assert(selected_indices(s2, pat) == picks1);
                        assert(families_loaded(out@, s2, pat));
                    }
                }
                i = i + 1;
            }
            proof {
                assert(src.take(i as int) =~= src);
            }
            self.families = Some(out);
        }
        self.families.as_ref().unwrap()
    }

    /// The discovered languages: one parse result per selected
    /// descriptor, in discovery order, computed on first call and
    /// cached.
    pub fn languages(&mut self) -> (r: &Vec<Result<LanguageRecord, ParseError>>)
        requires
            old(self).wf(),
        ensures
            final(self).wf(),
            final(self).same_config(old(self)),
            final(self).spec_families() == old(self).spec_families(),
            final(self).spec_tags() == old(self).spec_tags(),
            final(self).spec_font_index() == old(self).spec_font_index(),
            final(self).spec_languages() == Some(r@),
            old(self).spec_languages() matches Some(v) ==> r@ == v && *final(self) == *old(self),
            old(self).spec_languages() is None ==> languages_loaded(
                r@,
                old(self).spec_language_sources(),
            ),
    {
        if self.languages.is_none() {
            let mut out: Vec<Result<LanguageRecord, ParseError>> = Vec::new();
            let mut i: usize = 0;
            proof {
                assert(self.language_sources@.take(0) =~= Seq::<(String, String)>::empty());
            }
            while i < self.language_sources.len()
                invariant
                    i <= self.language_sources@.len(),
                    out@.len() == language_selected(self.language_sources@.take(i as int)).len(),
                    forall|a: int|
                        0 <= a < out@.len() ==> language_parse_matches(
                            #[trigger] out@[a],
                            language_selected(self.language_sources@.take(i as int))[a].1@,
                        ),
                decreases self.language_sources@.len() - i,
            {
                proof {
                    assert(self.language_sources@.take(i + 1).drop_last()
                        =~= self.language_sources@.take(i as int));
                    assert(self.language_sources@.take(i + 1).last()
                        == self.language_sources@[i as int]);
                }
                let path = &self.language_sources[i].0;
                if is_language_path_exec(path.as_str()) {
                    let parsed = read_language(self.language_sources[i].1.as_str());
                    out.push(parsed);
                }
                i = i + 1;
            }
            proof {
                assert(self.language_sources@.take(i as int) =~= self.language_sources@);
            }
            self.languages = Some(out);
        }
        self.languages.as_ref().unwrap()
    }

    /// The first successfully parsed language with the given id.
    pub fn language<'a>(&'a mut self, lang_id: &str) -> (r: Option<&'a LanguageRecord>)
        requires
            old(self).wf(),
        ensures
            final(self).wf(),
            final(self).same_config(old(self)),
            final(self).spec_families() == old(self).spec_families(),
            final(self).spec_tags() == old(self).spec_tags(),
            final(self).spec_font_index() == old(self).spec_font_index(),
            final(self).spec_languages() matches Some(ls) && (match r {
                Some(l) => spec_find_lang(ls, lang_id@) matches Some(i) && 0 <= i < ls.len()
                    && ls[i] == Ok::<LanguageRecord, ParseError>(*l),
                None => spec_find_lang(ls, lang_id@) is None,
            }),
            old(self).spec_languages() matches Some(v) ==> *final(self) == *old(self),
            old(self).spec_languages() is None ==> languages_loaded(
                final(self).spec_languages()->Some_0,
                old(self).spec_language_sources(),
            ),
    {
        let langs = self.languages();
        find_language(langs, lang_id)
    }

    /// The tag records of the corpus, or the first load error, computed
    /// on first call and cached.
    pub fn tags(&mut self) -> (r: &Result<Vec<Tag>, TagLoadError>)
        requires
            old(self).wf(),
        ensures
            final(self).wf(),
            final(self).same_config(old(self)),
            final(self).spec_families() == old(self).spec_families(),
            final(self).spec_languages() == old(self).spec_languages(),
            final(self).spec_font_index() == old(self).spec_font_index(),
            final(self).spec_tags() == Some(*r),
            old(self).spec_tags() matches Some(v) ==> *r == v && *final(self) == *old(self),
            old(self).spec_tags() is None ==> tags_loaded(*r, old(self).spec_tag_sources()),
    {
        if self.tags.is_none() {
            let loaded = read_tags(&self.tag_sources);
            self.tags = Some(loaded);
        }
        self.tags.as_ref().unwrap()
    }

    /// The owning family of a variant: the descriptor path and record
    /// that the font-file index resolves the variant's filename to.
    pub fn family<'a>(&'a mut self, font: &FontVariantRecord) -> (r: Option<
        (&'a String, &'a FamilyRecord),
    >)
        requires
            old(self).wf(),
        ensures
            final(self).wf(),
            final(self).same_config(old(self)),
            final(self).spec_languages() == old(self).spec_languages(),
            final(self).spec_tags() == old(self).spec_tags(),
            final(self).spec_families() matches Some(fams) && (match r {
                Some(pf) => spec_index(fams).contains_key(font.filename@) && ({
                    let i = spec_index(fams)[font.filename@];
                    0 <= i < fams.len() && fams[i].0 == *pf.0 && fams[i].1 == Ok::<
                        FamilyRecord,
                        ParseError,
                    >(*pf.1)
                }),
                None => !spec_index(fams).contains_key(font.filename@),
            }),
            old(self).spec_families() matches Some(v) ==> final(self).spec_families() == Some(v),
            old(self).spec_families() is None ==> families_loaded(
                final(self).spec_families()->Some_0,
                old(self).spec_family_sources(),
                old(self).spec_filter(),
            ),
    {
        self.families();
        if self.family_by_font_file.is_none() {
            let idx = build_index(self.families.as_ref().unwrap());
            self.family_by_font_file = Some(idx);
        }
        owner_of(self.families.as_ref().unwrap(), self.family_by_font_file.as_ref().unwrap(), font)
    }

    /// The expected on-disk path of a variant's binary: the variant's
    /// filename beside its owning family's descriptor.  Whether the file
    /// exists there is for the caller to probe.
    pub fn font_binary_path(&mut self, font: &FontVariantRecord) -> (r: Option<String>)
        requires
            old(self).wf(),
        ensures
            final(self).wf(),
            final(self).same_config(old(self)),
            final(self).spec_languages() == old(self).spec_languages(),
            final(self).spec_tags() == old(self).spec_tags(),
            final(self).spec_families() matches Some(fams) && (match r {
                Some(p) => spec_index(fams).contains_key(font.filename@) && ({
                    let i = spec_index(fams)[font.filename@];
                    0 <= i < fams.len() && p@ == spec_binary_path(fams[i].0@, font.filename@)
                }),
                None => !spec_index(fams).contains_key(font.filename@),
            }),
            old(self).spec_families() matches Some(v) ==> final(self).spec_families() == Some(v),
            old(self).spec_families() is None ==> families_loaded(
                final(self).spec_families()->Some_0,
                old(self).spec_family_sources(),
                old(self).spec_filter(),
            ),
    {
        match self.family(font) {
            None => None,
            Some((path, _)) => Some(sibling_path(path.as_str(), font.filename.as_str())),
        }
    }

    /// Our best guess at the primary language for this family, meant to
    /// be a good choice for things like rendering a sample string.  An
    /// error means not even the fallback id resolves: the corpus is
    /// unusable.
    pub fn primary_language<'a>(&'a mut self, family: &FamilyRecord) -> (r: Result<
        &'a LanguageRecord,
        ResolveError,
    >)
        requires
            old(self).wf(),
        ensures
            final(self).wf(),
            final(self).same_config(old(self)),
            final(self).spec_families() == old(self).spec_families(),
            final(self).spec_tags() == old(self).spec_tags(),
            final(self).spec_font_index() == old(self).spec_font_index(),
            final(self).spec_languages() matches Some(ls) && (match r {
                Ok(l) => spec_primary_language(*family, ls) matches Some(i) && 0 <= i < ls.len()
                    && ls[i] == Ok::<LanguageRecord, ParseError>(*l),
                Err(_) => spec_primary_language(*family, ls) is None,
            }),
            old(self).spec_languages() matches Some(v) ==> *final(self) == *old(self),
            old(self).spec_languages() is None ==> languages_loaded(
                final(self).spec_languages()->Some_0,
                old(self).spec_language_sources(),
            ),
    {
        let langs = self.languages();
        crate::resolve::primary_language(family, langs)
    }
}

} // verus!
