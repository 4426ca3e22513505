use gf_metadata::descriptor::ParseError;
use gf_metadata::exemplar::{exemplar, exemplar_score};
use gf_metadata::family::{read_family, FamilyRecord, FontVariantRecord};
use gf_metadata::language::read_language;
use gf_metadata::paths::output_file;

fn plain_family() -> &'static str {
    "name: \"Test Sans\"\n\
     designer: \"Somebody\"\n\
     license: \"OFL\"\n\
     category: \"SANS_SERIF\"\n\
     date_added: 2020-01-01\n\
     subsets: \"latin\"\n\
     fonts {\n\
       name: \"Test Sans\"\n\
       style: \"normal\"\n\
       weight: 400\n\
       filename: \"TestSans[wght].ttf\"\n\
       post_script_name: \"TestSans\"\n\
       copyright: \"Copyright 2020\"\n\
     }\n\
     fonts {\n\
       name: \"Test Sans\"\n\
       style: \"italic\"\n\
       weight: 700\n\
       filename: \"TestSans-Italic.ttf\"\n\
     }\n\
     source {\n\
       repository_url: \"https://example.com/repo\"\n\
       files {\n\
         source_file: \"a.ttf\"\n\
         dest_file: \"b.ttf\"\n\
       }\n\
     }\n\
     axes {\n\
       tag: \"wght\"\n\
       min_value: 100.0\n\
       max_value: 900.0\n\
     }\n"
}

#[test]
fn parse_plain_family() {
    let f = read_family(plain_family()).unwrap();
    assert_eq!(f.name, "Test Sans");
    assert_eq!(f.fonts.len(), 2);
    assert_eq!(f.fonts[0].style, "normal");
    assert_eq!(f.fonts[0].weight, 400);
    assert_eq!(f.fonts[0].filename, "TestSans[wght].ttf");
    assert_eq!(f.fonts[1].style, "italic");
    assert_eq!(f.fonts[1].weight, 700);
    assert_eq!(f.fonts[1].filename, "TestSans-Italic.ttf");
    assert_eq!(f.primary_language, None);
    assert_eq!(f.primary_script, None);
}

#[test]
fn position_blocks_are_stripped() {
    let s = "name: \"Wixish\"\n\
             fonts {\n\
               style: \"normal\"\n\
               weight: 400\n\
               filename: \"Wixish[wght].ttf\"\n\
               position { x: 1.0 y: 2.0 }\n\
             }\n";
    let f = read_family(s).unwrap();
    assert_eq!(f.name, "Wixish");
    assert_eq!(f.fonts.len(), 1);
    assert_eq!(f.fonts[0].filename, "Wixish[wght].ttf");
}

#[test]
fn primary_language_and_script_fields() {
    let s = "name: \"Kosugiish\"\n\
             primary_script: \"Jpan\"\n\
             primary_language: \"Invalid\"\n\
             fonts {\n\
               style: \"normal\"\n\
               weight: 400\n\
               filename: \"Kosugiish-Regular.ttf\"\n\
             }\n";
    let f = read_family(s).unwrap();
    assert_eq!(
        ("Jpan", "Invalid"),
        (f.primary_script.as_deref().unwrap(), f.primary_language.as_deref().unwrap()),
    );
}

#[test]
fn missing_style_and_weight_take_defaults() {
    let s = "name: \"Bare\"\nfonts {\n  filename: \"Bare.ttf\"\n}\n";
    let f = read_family(s).unwrap();
    assert_eq!(f.fonts[0].style, "");
    assert_eq!(f.fonts[0].weight, 400);
}

#[test]
fn family_without_name_is_an_error() {
    let s = "fonts {\n  filename: \"X.ttf\"\n}\n";
    assert_eq!(read_family(s), Err(ParseError::MissingName));
    assert_eq!(read_family("name: \"\"\n"), Err(ParseError::MissingName));
}

#[test]
fn garbage_line_is_an_error() {
    let s = "name: \"A\"\nwhat even is this\n";
    assert_eq!(read_family(s), Err(ParseError::MalformedLine(1)));
}

#[test]
fn bad_weight_is_an_error() {
    let s = "name: \"A\"\nfonts {\n  weight: heavy\n}\n";
    assert_eq!(read_family(s), Err(ParseError::BadInteger(2)));
}

#[test]
fn unbalanced_braces_are_errors() {
    assert_eq!(read_family("name: \"A\"\nfonts {\n"), Err(ParseError::UnclosedBlock));
    assert_eq!(read_family("name: \"A\"\n}\n"), Err(ParseError::UnmatchedClose(1)));
}

#[test]
fn parse_language_descriptor() {
    let s = "id: \"en_Latn\"\n\
             language: \"en\"\n\
             script: \"Latn\"\n\
             name: \"English\"\n\
             population: 1636000000\n\
             sample_text {\n\
               masthead_full: \"Whe\"\n\
               styles: \"The quick brown fox\"\n\
             }\n\
             exemplar_chars {\n\
               base: \"a b c\"\n\
             }\n";
    let l = read_language(s).unwrap();
    assert_eq!(l.id, "en_Latn");
    assert_eq!(l.script.as_deref(), Some("Latn"));
    assert_eq!(l.population, 1636000000);
    assert_eq!(l.sample_text_styles.as_deref(), Some("The quick brown fox"));
}

#[test]
fn language_without_id_is_an_error() {
    assert_eq!(read_language("script: \"Latn\"\n"), Err(ParseError::MissingId));
}

fn variant(style: &str, weight: i32, filename: &str) -> FontVariantRecord {
    FontVariantRecord { filename: filename.to_string(), style: style.to_string(), weight }
}

fn family_of(fonts: Vec<FontVariantRecord>) -> FamilyRecord {
    FamilyRecord {
        name: "F".to_string(),
        primary_language: None,
        primary_script: None,
        fonts,
    }
}

#[test]
fn exemplar_scoring_example() {
    let a = variant("normal", 400, "A[wght].ttf");
    let b = variant("italic", 700, "B.ttf");
    assert_eq!(exemplar_score(&a), 17);
    assert_eq!(exemplar_score(&b), -3);
    let fam = family_of(vec![a, b]);
    let e = exemplar(&fam).unwrap();
    assert_eq!(e.filename, "A[wght].ttf");
}

#[test]
fn exemplar_truncates_toward_zero() {
    // 350 is within half a step of 400: the division must not round away
    // from zero, so the penalty is zero.
    assert_eq!(exemplar_score(&variant("normal", 350, "X.ttf")), 16);
    assert_eq!(exemplar_score(&variant("normal", 300, "X.ttf")), 17);
    assert_eq!(exemplar_score(&variant("normal", 500, "X.ttf")), 15);
}

#[test]
fn exemplar_of_empty_family_is_none() {
    assert!(exemplar(&family_of(vec![])).is_none());
}

#[test]
fn exemplar_ties_keep_the_earlier_variant() {
    let fam = family_of(vec![
        variant("normal", 400, "First.ttf"),
        variant("normal", 400, "Second.ttf"),
    ]);
    assert_eq!(exemplar(&fam).unwrap().filename, "First.ttf");
}

#[test]
fn exemplar_is_repeatable() {
    let fam = family_of(vec![
        variant("italic", 100, "A.ttf"),
        variant("normal", 900, "B[wght].ttf"),
        variant("normal", 400, "C.ttf"),
    ]);
    let first = exemplar(&fam).unwrap().filename.clone();
    for _ in 0..3 {
        assert_eq!(exemplar(&fam).unwrap().filename, first);
    }
}

#[test]
fn crlf_descriptors_parse_too() {
    let s = "name: \"Crlf\"\r\nfonts {\r\n  filename: \"Crlf.ttf\"\r\n}\r\n";
    let f = read_family(s).unwrap();
    assert_eq!(f.name, "Crlf");
    assert_eq!(f.fonts[0].filename, "Crlf.ttf");
}

#[test]
fn escaped_quotes_inside_string_values() {
    let s = "name: \"Say \\\"Hi\\\"\"\n";
    let f = read_family(s).unwrap();
    assert_eq!(f.name, "Say \"Hi\"");
}

#[test]
fn output_file_joins_dir_name_and_extension() {
    let v = variant("normal", 400, "Roboto[wdth,wght].ttf");
    assert_eq!(output_file("/tmp/test_png", &v, ".png"), "/tmp/test_png/Roboto[wdth,wght].ttf.png");
    assert_eq!(output_file("", &v, ".svg"), "Roboto[wdth,wght].ttf.svg");
}
