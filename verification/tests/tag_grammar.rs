use std::str::FromStr;

use gf_metadata::tag::{Tag, TagParseError, TagValue};

#[test]
fn parse_tag3() {
    Tag::from_str("Roboto Slab, /quant/stroke_width_min, 26.31").expect("To parse");
}

#[test]
fn parse_tag4() {
    Tag::from_str("Roboto Slab, wght@100, /quant/stroke_width_min, 26.31").expect("To parse");
}

#[test]
fn parse_tag_quoted() {
    Tag::from_str("Georama, \"ital,wght@1,100\", /quant/stroke_width_min, 16.97")
        .expect("To parse");
}

#[test]
fn parse_tag_quoted2() {
    Tag::from_str("\"\",t,1").expect("To parse");
}

#[test]
fn three_field_line_fields() {
    let t = Tag::parse("Roboto Slab, /quant/stroke_width_min, 26.31").unwrap();
    assert_eq!(t.family, "Roboto Slab");
    assert_eq!(t.loc, "");
    assert_eq!(t.tag, "/quant/stroke_width_min");
    assert_eq!(t.value, TagValue { negative: false, mantissa: 2631, scale: 2 });
}

#[test]
fn four_field_line_fields() {
    let t = Tag::parse("Roboto Slab, wght@100, /quant/stroke_width_min, 26.31").unwrap();
    assert_eq!(t.family, "Roboto Slab");
    assert_eq!(t.loc, "wght@100");
    assert_eq!(t.tag, "/quant/stroke_width_min");
    assert_eq!(t.value, TagValue { negative: false, mantissa: 2631, scale: 2 });
}

#[test]
fn quoted_field_keeps_commas() {
    let t = Tag::parse("Georama, \"ital,wght@1,100\", /quant/stroke_width_min, 16.97").unwrap();
    assert_eq!(t.family, "Georama");
    assert_eq!(t.loc, "ital,wght@1,100");
    assert_eq!(t.tag, "/quant/stroke_width_min");
    assert_eq!(t.value, TagValue { negative: false, mantissa: 1697, scale: 2 });
}

#[test]
fn quoted_empty_field_is_a_field() {
    let t = Tag::parse("\"\",t,1").unwrap();
    assert_eq!(t.family, "");
    assert_eq!(t.loc, "");
    assert_eq!(t.tag, "t");
    assert_eq!(t.value, TagValue { negative: false, mantissa: 1, scale: 0 });
}

#[test]
fn negative_value() {
    let t = Tag::parse("F, /t, -3.5").unwrap();
    assert_eq!(t.value, TagValue { negative: true, mantissa: 35, scale: 1 });
}

#[test]
fn unclosed_quote_is_an_error() {
    assert_eq!(Tag::parse("F, \"oops, /t, 1"), Err(TagParseError::UnclosedQuote));
}

#[test]
fn two_fields_are_too_few() {
    assert_eq!(Tag::parse("F, 1"), Err(TagParseError::WrongFieldCount));
}

#[test]
fn five_fields_are_too_many() {
    assert_eq!(Tag::parse("a, b, c, d, 1"), Err(TagParseError::WrongFieldCount));
}

#[test]
fn empty_line_is_an_error() {
    assert_eq!(Tag::parse(""), Err(TagParseError::WrongFieldCount));
}

#[test]
fn word_value_is_an_error() {
    assert_eq!(Tag::parse("F, /t, sixteen"), Err(TagParseError::BadValue));
}

#[test]
fn value_with_two_dots_is_an_error() {
    assert_eq!(Tag::parse("F, /t, 1.2.3"), Err(TagParseError::BadValue));
}
