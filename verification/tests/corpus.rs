use gf_metadata::descriptor::ParseError;
use gf_metadata::family::{FamilyRecord, FontVariantRecord};
use gf_metadata::filter::PathFilter;
use gf_metadata::handle::GoogleFonts;
use gf_metadata::language::LanguageRecord;
use gf_metadata::resolve::{find_language, primary_language, ResolveError};
use gf_metadata::store::read_tags;
use gf_metadata::tag::TagParseError;

fn lang(id: &str, script: Option<&str>, population: i64) -> Result<LanguageRecord, ParseError> {
    Ok(LanguageRecord {
        id: id.to_string(),
        script: script.map(|s| s.to_string()),
        population,
        sample_text_styles: None,
    })
}

fn family(primary_language: Option<&str>, primary_script: Option<&str>) -> FamilyRecord {
    FamilyRecord {
        name: "F".to_string(),
        primary_language: primary_language.map(|s| s.to_string()),
        primary_script: primary_script.map(|s| s.to_string()),
        fonts: vec![],
    }
}

fn corpus_langs() -> Vec<Result<LanguageRecord, ParseError>> {
    vec![
        lang("en_Latn", Some("Latn"), 1636000000),
        lang("hi_Deva", Some("Deva"), 600000000),
        lang("mr_Deva", Some("Deva"), 99000000),
        Err(ParseError::MissingId),
        lang("ja_Jpan", Some("Jpan"), 125000000),
    ]
}

#[test]
fn cascade_stage_one_explicit_language_wins() {
    let langs = corpus_langs();
    let fam = family(Some("mr_Deva"), Some("Jpan"));
    let l = primary_language(&fam, &langs).unwrap();
    assert_eq!(l.id, "mr_Deva");
}

#[test]
fn cascade_stage_two_script_picks_greatest_population() {
    let langs = corpus_langs();
    let fam = family(Some("Invalid"), Some("Deva"));
    let l = primary_language(&fam, &langs).unwrap();
    assert_eq!(l.id, "hi_Deva");
    let fam2 = family(None, Some("Deva"));
    assert_eq!(primary_language(&fam2, &langs).unwrap().id, "hi_Deva");
}

#[test]
fn cascade_stage_two_population_ties_keep_the_earlier_language() {
    let langs = vec![
        lang("en_Latn", Some("Latn"), 1),
        lang("aa_Deva", Some("Deva"), 7),
        lang("bb_Deva", Some("Deva"), 7),
    ];
    let fam = family(None, Some("Deva"));
    assert_eq!(primary_language(&fam, &langs).unwrap().id, "aa_Deva");
}

#[test]
fn cascade_stage_three_falls_back_to_en_latn() {
    let langs = corpus_langs();
    let fam = family(None, None);
    assert_eq!(primary_language(&fam, &langs).unwrap().id, "en_Latn");
    let fam2 = family(Some("Invalid"), Some("Cyrl"));
    assert_eq!(primary_language(&fam2, &langs).unwrap().id, "en_Latn");
}

#[test]
fn cascade_without_fallback_is_fatal() {
    let langs = vec![lang("ja_Jpan", Some("Jpan"), 1)];
    let fam = family(None, None);
    assert_eq!(primary_language(&fam, &langs), Err(ResolveError::FallbackMissing));
}

#[test]
fn find_language_skips_failed_parses() {
    let langs = corpus_langs();
    assert_eq!(find_language(&langs, "ja_Jpan").unwrap().id, "ja_Jpan");
    assert!(find_language(&langs, "zz_Zzzz").is_none());
}

fn good_family(name: &str, filename: &str) -> String {
    format!(
        "name: \"{}\"\nfonts {{\n  style: \"normal\"\n  weight: 400\n  filename: \"{}\"\n}}\n",
        name, filename
    )
}

fn corpus_sources() -> Vec<(String, String)> {
    vec![
        ("ofl/alpha/METADATA.pb".to_string(), good_family("Alpha", "Alpha[wght].ttf")),
        ("ofl/alpha/FONTLOG.txt".to_string(), "not a descriptor".to_string()),
        ("ofl/beta/METADATA.pb".to_string(), "name: \"\"\n".to_string()),
        ("ofl/gamma/METADATA.pb".to_string(), good_family("Gamma", "Gamma-Regular.ttf")),
    ]
}

fn language_sources() -> Vec<(String, String)> {
    vec![
        (
            "gflanguages/data/languages/en_Latn.textproto".to_string(),
            "id: \"en_Latn\"\nscript: \"Latn\"\npopulation: 10\n".to_string(),
        ),
        (
            "gflanguages/data/languages/README.md".to_string(),
            "not a language".to_string(),
        ),
        (
            "gflanguages/data/languages/ja_Jpan.textproto".to_string(),
            "id: \"ja_Jpan\"\nscript: \"Jpan\"\npopulation: 125\n".to_string(),
        ),
    ]
}

#[test]
fn one_bad_descriptor_does_not_abort_the_scan() {
    let mut gf = GoogleFonts::new(corpus_sources(), vec![], vec![], None);
    let fams = gf.families();
    assert_eq!(fams.len(), 3);
    assert_eq!(fams[0].0, "ofl/alpha/METADATA.pb");
    assert_eq!(fams[0].1.as_ref().unwrap().name, "Alpha");
    assert_eq!(fams[1].0, "ofl/beta/METADATA.pb");
    assert!(fams[1].1.is_err());
    assert_eq!(fams[2].0, "ofl/gamma/METADATA.pb");
    assert_eq!(fams[2].1.as_ref().unwrap().name, "Gamma");
}

#[test]
fn family_filter_restricts_the_scan() {
    let filter = PathFilter::new("gamma").unwrap();
    let mut gf = GoogleFonts::new(corpus_sources(), vec![], vec![], Some(filter));
    let fams = gf.families();
    assert_eq!(fams.len(), 1);
    assert_eq!(fams[0].0, "ofl/gamma/METADATA.pb");
}

#[test]
fn bad_filter_pattern_does_not_compile() {
    assert!(PathFilter::new("(unclosed").is_none());
    assert!(PathFilter::new("ofl/(alpha|beta)").is_some());
}

#[test]
fn matching_filter_keeps_everything_it_matches() {
    let filter = PathFilter::new("ofl/(alpha|beta)").unwrap();
    let mut gf = GoogleFonts::new(corpus_sources(), vec![], vec![], Some(filter));
    let fams = gf.families();
    assert_eq!(fams.len(), 2);
    assert_eq!(fams[0].0, "ofl/alpha/METADATA.pb");
    assert_eq!(fams[1].0, "ofl/beta/METADATA.pb");
}

#[test]
fn font_file_index_resolves_owning_family() {
    let mut gf = GoogleFonts::new(corpus_sources(), vec![], vec![], None);
    let font = FontVariantRecord {
        filename: "Gamma-Regular.ttf".to_string(),
        style: "normal".to_string(),
        weight: 400,
    };
    let (path, fam) = gf.family(&font).unwrap();
    assert_eq!(path, "ofl/gamma/METADATA.pb");
    assert_eq!(fam.name, "Gamma");
    let stranger = FontVariantRecord {
        filename: "Elsewhere.ttf".to_string(),
        style: "normal".to_string(),
        weight: 400,
    };
    assert!(gf.family(&stranger).is_none());
}

#[test]
fn font_binary_path_lies_beside_the_descriptor() {
    let mut gf = GoogleFonts::new(corpus_sources(), vec![], vec![], None);
    let font = FontVariantRecord {
        filename: "Alpha[wght].ttf".to_string(),
        style: "normal".to_string(),
        weight: 400,
    };
    assert_eq!(gf.font_binary_path(&font).unwrap(), "ofl/alpha/Alpha[wght].ttf");
}

#[test]
fn handle_languages_select_and_parse() {
    let mut gf = GoogleFonts::new(vec![], language_sources(), vec![], None);
    let langs = gf.languages();
    assert_eq!(langs.len(), 2);
    assert_eq!(langs[0].as_ref().unwrap().id, "en_Latn");
    assert_eq!(langs[1].as_ref().unwrap().id, "ja_Jpan");
    assert_eq!(gf.language("ja_Jpan").unwrap().population, 125);
    assert!(gf.language("missing").is_none());
}

#[test]
fn handle_primary_language_cascade() {
    let mut gf = GoogleFonts::new(vec![], language_sources(), vec![], None);
    let fam = family(None, Some("Jpan"));
    assert_eq!(gf.primary_language(&fam).unwrap().id, "ja_Jpan");
    let fam2 = family(None, None);
    assert_eq!(gf.primary_language(&fam2).unwrap().id, "en_Latn");
}

#[test]
fn tag_store_reads_csv_files_only() {
    let files = vec![
        (
            "families.csv".to_string(),
            "Roboto, /quant/x, 1.5\nArial, wght@100, /quant/y, 2\n".to_string(),
        ),
        ("notes.txt".to_string(), "this would not parse ,,,,\n".to_string()),
    ];
    let tags = read_tags(&files).unwrap();
    assert_eq!(tags.len(), 2);
    assert_eq!(tags[0].family, "Roboto");
    assert_eq!(tags[1].loc, "wght@100");
}

#[test]
fn tag_store_fails_on_the_first_bad_line() {
    let files = vec![
        ("good.csv".to_string(), "Roboto, /quant/x, 1.5\n".to_string()),
        ("bad.csv".to_string(), "Roboto, /quant/x, 1.5\nonly,two\n".to_string()),
    ];
    let err = read_tags(&files).unwrap_err();
    assert_eq!(err.file, "bad.csv");
    assert_eq!(err.line, 1);
    assert_eq!(err.err, TagParseError::WrongFieldCount);
}

#[test]
fn crlf_tag_files_parse_too() {
    let files = vec![("t.csv".to_string(), "Roboto, /quant/x, 1.5\r\nArial, /t, 2\r\n".to_string())];
    let tags = read_tags(&files).unwrap();
    assert_eq!(tags.len(), 2);
    assert_eq!(tags[1].family, "Arial");
}

#[test]
fn handle_tags_are_cached_per_handle() {
    let files = vec![("t.csv".to_string(), "Roboto, /quant/x, 1.5\n".to_string())];
    let mut gf = GoogleFonts::new(vec![], vec![], files, None);
    assert_eq!(gf.tags().as_ref().unwrap().len(), 1);
    assert_eq!(gf.tags().as_ref().unwrap().len(), 1);
}
