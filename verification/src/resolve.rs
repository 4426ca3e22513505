//! Resolving the language to render a family's sample text with: the
//! family's declared language if it resolves, else the most populous
//! language of the family's script, else the fixed fallback `en_Latn`.
use vstd::prelude::*;

use crate::descriptor::ParseError;
use crate::family::FamilyRecord;
use crate::language::LanguageRecord;
use crate::text::str_eq;

verus! {

/// The corpus offers no language at all for a family, not even the
/// fallback: the corpus is unusable.
#[derive(Clone, Copy, Debug, PartialEq, Eq, Structural)]
pub enum ResolveError {
    FallbackMissing,
}

/// The first successfully parsed language with the given id, at or after
/// position `i`.
pub open spec fn find_lang_from(
    langs: Seq<Result<LanguageRecord, ParseError>>,
    id: Seq<char>,
    i: int,
) -> Option<int>
    decreases langs.len() - i,
{
    if i < 0 || i >= langs.len() {
        None
    } else if langs[i] matches Ok(l) && l.id@ == id {
        Some(i)
    } else {
        find_lang_from(langs, id, i + 1)
    }
}

/// The first successfully parsed language with the given id.
pub open spec fn spec_find_lang(
    langs: Seq<Result<LanguageRecord, ParseError>>,
    id: Seq<char>,
) -> Option<int> {
    find_lang_from(langs, id, 0)
}

pub proof fn lemma_find_lang_from_ok(
    langs: Seq<Result<LanguageRecord, ParseError>>,
    id: Seq<char>,
    i: int,
)
    ensures
        find_lang_from(langs, id, i) matches Some(p) ==> i <= p < langs.len() && (langs[p] matches
            Ok(l) && l.id@ == id),
    decreases langs.len() - i,
{
    if 0 <= i < langs.len() && !(langs[i] matches Ok(l) && l.id@ == id) {
        lemma_find_lang_from_ok(langs, id, i + 1);
    }
}

/// A successfully parsed language that declares the given script.
pub open spec fn script_matches(e: Result<LanguageRecord, ParseError>, script: Seq<char>) -> bool {
    e matches Ok(l) && l.script matches Some(sc) && sc@ == script
}

/// The population of an entry, for comparison among matches.
pub open spec fn pop_of(e: Result<LanguageRecord, ParseError>) -> int {
    match e {
        Ok(l) => l.population as int,
        Err(_) => 0,
    }
}

/// The index the script scan settles on: among the languages declaring
/// the script, a later one displaces the held one only with a strictly
/// greater population.
pub open spec fn spec_best_script_idx(
    langs: Seq<Result<LanguageRecord, ParseError>>,
    script: Seq<char>,
) -> Option<int>
    decreases langs.len(),
{
    if langs.len() == 0 {
        None
    } else {
        let prev = spec_best_script_idx(langs.drop_last(), script);
        let last_matches = script_matches(langs.last(), script);
        match prev {
            None => if last_matches {
                Some(langs.len() - 1)
            } else {
                None
            },
            Some(p) => if last_matches && pop_of(langs.last()) > pop_of(langs[p]) {
                Some(langs.len() - 1)
            } else {
                Some(p)
            },
        }
    }
}

/// The script scan picks the first language of maximal population among
/// those declaring the script; it comes up empty only when none does.
pub proof fn lemma_best_script_first_max(
    langs: Seq<Result<LanguageRecord, ParseError>>,
    script: Seq<char>,
)
    ensures
        match spec_best_script_idx(langs, script) {
            Some(p) => 0 <= p < langs.len() && script_matches(langs[p], script) && (forall|j: int|
                0 <= j < p && script_matches(#[trigger] langs[j], script) ==> pop_of(langs[j])
                    < pop_of(langs[p])) && (forall|j: int|
                0 <= j < langs.len() && script_matches(#[trigger] langs[j], script) ==> pop_of(
                    langs[j],
                ) <= pop_of(langs[p])),
            None => forall|j: int|
                0 <= j < langs.len() ==> !script_matches(#[trigger] langs[j], script),
        },
    decreases langs.len(),
{
    if langs.len() > 0 {
        lemma_best_script_first_max(langs.drop_last(), script);
        assert(forall|j: int|
            0 <= j < langs.len() - 1 ==> #[trigger] langs[j] == langs.drop_last()[j]);
    }
}

/// The three-stage cascade: the declared primary language when it
/// resolves; else the best language of the declared primary script; else
/// the fallback `en_Latn`.  `None` means even the fallback is absent.
pub open spec fn spec_primary_language(
    family: FamilyRecord,
    langs: Seq<Result<LanguageRecord, ParseError>>,
) -> Option<int> {
    let stage1 = match family.primary_language {
        Some(id) => spec_find_lang(langs, id@),
        None => None,
    };
    match stage1 {
        Some(i) => Some(i),
        None => {
            let stage2 = match family.primary_script {
                Some(sc) => spec_best_script_idx(langs, sc@),
                None => None,
            };
            match stage2 {
                Some(i) => Some(i),
                None => spec_find_lang(langs, "en_Latn"@),
            }
        },
    }
}

/// A family with a declared primary language that resolves gets exactly
/// that language, whatever its primary script says.
pub proof fn lemma_cascade_stage_one(
    family: FamilyRecord,
    langs: Seq<Result<LanguageRecord, ParseError>>,
    id: String,
)
    requires
        family.primary_language == Some(id),
        spec_find_lang(langs, id@) is Some,
    ensures
        spec_primary_language(family, langs) == spec_find_lang(langs, id@),
{
}

/// A family with no resolving primary language but a primary script
/// matched by some language gets the script scan's choice: the first
/// language of maximal population among those declaring the script.
pub proof fn lemma_cascade_stage_two(
    family: FamilyRecord,
    langs: Seq<Result<LanguageRecord, ParseError>>,
    sc: String,
)
    requires
        family.primary_script == Some(sc),
        (match family.primary_language {
            Some(id) => spec_find_lang(langs, id@) is None,
            None => true,
        }),
        spec_best_script_idx(langs, sc@) is Some,
    ensures
        spec_primary_language(family, langs) == spec_best_script_idx(langs, sc@),
{
}

/// A family with neither a resolving primary language nor a matched
/// primary script falls back to the language with id `en_Latn`.
pub proof fn lemma_cascade_stage_three(
    family: FamilyRecord,
    langs: Seq<Result<LanguageRecord, ParseError>>,
)
    requires
        (match family.primary_language {
            Some(id) => spec_find_lang(langs, id@) is None,
            None => true,
        }),
        (match family.primary_script {
            Some(sc) => spec_best_script_idx(langs, sc@) is None,
            None => true,
        }),
    ensures
        spec_primary_language(family, langs) == spec_find_lang(langs, "en_Latn"@),
{
}

/// The position of the first successfully parsed language with the given
/// id.
pub fn language_index(langs: &Vec<Result<LanguageRecord, ParseError>>, id: &str) -> (r: Option<
    usize,
>)
    ensures
        match r {
            Some(i) => spec_find_lang(langs@, id@) == Some(i as int) && i < langs@.len(),
            None => spec_find_lang(langs@, id@) is None,
        },
{
    let mut i: usize = 0;
    while i < langs.len()
        invariant
            i <= langs@.len(),
            spec_find_lang(langs@, id@) == find_lang_from(langs@, id@, i as int),
        decreases langs@.len() - i,
    {
        match &langs[i] {
            Ok(l) => {
                if str_eq(l.id.as_str(), id) {
                    return Some(i);
                }
            },
            Err(_) => {},
        }
        i = i + 1;
    }
    None
}

/// The first successfully parsed language with the given id, as a
/// reference into the list.
pub fn find_language<'a>(langs: &'a Vec<Result<LanguageRecord, ParseError>>, id: &str) -> (r:
    Option<&'a LanguageRecord>)
    ensures
        match r {
            Some(l) => spec_find_lang(langs@, id@) matches Some(i) && 0 <= i < langs@.len()
                && langs@[i] == Ok::<LanguageRecord, ParseError>(*l),
            None => spec_find_lang(langs@, id@) is None,
        },
{
    match language_index(langs, id) {
        None => None,
        Some(i) => {
            proof {
                lemma_find_lang_from_ok(langs@, id@, 0);
            }
            match &langs[i] {
                Ok(l) => Some(l),
                Err(_) => None,
            }
        },
    }
}

/// The position the script scan settles on.
pub fn best_script_index(langs: &Vec<Result<LanguageRecord, ParseError>>, script: &str) -> (r:
    Option<usize>)
    ensures
        match r {
            Some(i) => spec_best_script_idx(langs@, script@) == Some(i as int) && i < langs@.len(),
            None => spec_best_script_idx(langs@, script@) is None,
        },
{
    let mut best: Option<usize> = None;
    let mut i: usize = 0;
    proof {
        assert(langs@.take(0) =~= Seq::<Result<LanguageRecord, ParseError>>::empty());
    }
    while i < langs.len()
        invariant
            i <= langs@.len(),
            (match best {
                Some(b) => b < i && spec_best_script_idx(langs@.take(i as int), script@) == Some(
                    b as int,
                ),
                None => spec_best_script_idx(langs@.take(i as int), script@) is None,
            }),
        decreases langs@.len() - i,
    {
        proof {
            assert(langs@.take(i + 1).drop_last() =~= langs@.take(i as int));
            assert(langs@.take(i + 1).last() == langs@[i as int]);
            if let Some(b) = best {
                assert(langs@.take(i as int)[b as int] == langs@[b as int]);
                assert(langs@.take(i + 1)[b as int] == langs@[b as int]);
            }
        }
        let matches_here = match &langs[i] {
            Ok(l) => match &l.script {
                Some(sc) => str_eq(sc.as_str(), script),
                None => false,
            },
            Err(_) => false,
        };
        match best {
            None => {
                if matches_here {
                    best = Some(i);
                }
            },
            Some(b) => {
                if matches_here {
                    let pop_new = match &langs[i] {
                        Ok(l) => l.population,
                        Err(_) => 0,
                    };
                    let pop_old = match &langs[b] {
                        Ok(l) => l.population,
                        Err(_) => 0,
                    };
                    if pop_new > pop_old {
                        best = Some(i);
                    }
                }
            },
        }
        i = i + 1;
    }
    proof {
        assert(langs@.take(i as int) =~= langs@);
    }
    best
}

/// Our best guess at the primary language for this family, meant to be a
/// good choice for things like rendering a sample string.  An error
/// means not even the fallback id resolves: the corpus is unusable.
pub fn primary_language<'a>(
    family: &FamilyRecord,
    langs: &'a Vec<Result<LanguageRecord, ParseError>>,
) -> (r: Result<&'a LanguageRecord, ResolveError>)
    ensures
        match r {
            Ok(l) => spec_primary_language(*family, langs@) matches Some(i) && 0 <= i
                < langs@.len() && langs@[i] == Ok::<LanguageRecord, ParseError>(*l),
            Err(_) => spec_primary_language(*family, langs@) is None,
        },
{
    let stage1 = match &family.primary_language {
        Some(id) => language_index(langs, id.as_str()),
        None => None,
    };
    let chosen = match stage1 {
        Some(i) => Some(i),
        None => {
            let stage2 = match &family.primary_script {
                Some(sc) => best_script_index(langs, sc.as_str()),
                None => None,
            };
            match stage2 {
                Some(i) => Some(i),
                None => language_index(langs, "en_Latn"),
            }
        },
    };
    match chosen {
        None => Err(ResolveError::FallbackMissing),
        Some(i) => {
            proof {
                if let Some(id) = &family.primary_language {
                    lemma_find_lang_from_ok(langs@, id@, 0);
                }
                if let Some(sc) = &family.primary_script {
                    lemma_best_script_first_max(langs@, sc@);
                }
                lemma_find_lang_from_ok(langs@, "en_Latn"@, 0);
            }
            match &langs[i] {
                Ok(l) => Ok(l),
                Err(_) => Err(ResolveError::FallbackMissing),
            }
        },
    }
}

} // verus!
