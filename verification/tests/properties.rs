//! The helpers one by one, the laws on concrete values, and the edge cases.

use parse_css_font::font::{
    is_size, or_normal, parse_line_height, system_font, unquote, LineHeight, ParseError,
    Shorthand, SystemFont,
};
use parse_css_font::parse::parse;
use parse_css_font::split::{split, split_by_commas, split_by_spaces, split_on_slash, Separator};
use parse_css_font::text::{chars_of, eq_str, is_white_space_char, trim_bounds};
use parse_css_font::Font;

const ALL_SYSTEM_FONTS: [SystemFont; 6] = [
    SystemFont::Caption,
    SystemFont::Icon,
    SystemFont::Menu,
    SystemFont::MessageBox,
    SystemFont::SmallCaption,
    SystemFont::StatusBar,
];

fn shorthand(value: &str) -> Shorthand {
    match parse(value).unwrap() {
        Font::Shorthand(s) => s,
        Font::System(_) => panic!("expected a shorthand for {value:?}"),
    }
}

#[test]
fn system_keywords_round_trip() {
    let names = ["caption", "icon", "menu", "message-box", "small-caption", "status-bar"];
    for (f, name) in ALL_SYSTEM_FONTS.iter().zip(names) {
        assert_eq!(f.as_str(), name);
        assert_eq!(parse(f.as_str()), Ok(Font::System(*f)));
        assert_eq!(system_font(name), Some(*f));
    }
    assert_eq!(system_font("Caption"), None);
    assert_eq!(system_font("caption "), None);
    assert_eq!(system_font(""), None);
}

#[test]
fn system_keyword_with_space_is_not_system() {
    // only the whole value counts; " caption" is read as a token list
    assert_eq!(parse(" caption"), Err(ParseError::MissingFontSize));
}

#[test]
fn error_messages() {
    assert_eq!(ParseError::EmptyString.message(), "cannot parse an empty string");
    assert_eq!(ParseError::MissingFontSize.message(), "missing required font-size");
    assert_eq!(ParseError::MissingFontFamily.message(), "missing required font-family");
    assert_eq!(ParseError::DuplicateStyle.message(), "font-style already defined");
    assert_eq!(ParseError::DuplicateWeight.message(), "font-weight already defined");
    assert_eq!(ParseError::DuplicateStretch.message(), "font-stretch already defined");
}

#[test]
fn split_on_whitespace_drops_empty_parts() {
    assert_eq!(split_by_spaces("  a\tb\nc   d "), ["a", "b", "c", "d"]);
    assert_eq!(split_by_spaces(""), Vec::<String>::new());
    assert_eq!(split_by_spaces("   "), Vec::<String>::new());
    // a carriage return is no separator, and a part made of it trims to empty
    assert_eq!(split_by_spaces("a \r b"), ["a", "", "b"]);
}

#[test]
fn split_respects_parentheses_and_quotes() {
    assert_eq!(split_by_spaces("f(a b) 'c d' \"e f\""), ["f(a b)", "'c d'", "\"e f\""]);
    // a stray closing parenthesis does not go below the top level
    assert_eq!(split_by_spaces(") a b"), [")", "a", "b"]);
    // an escaped quote inside a quote does not close it
    assert_eq!(split_by_commas(r#""a\",b",c"#), [r#""a\",b""#, "c"]);
    // outside quotes a backslash escapes nothing
    assert_eq!(split_by_commas(r"a\,b"), [r"a\", "b"]);
}

#[test]
fn split_on_commas_keeps_the_last_part() {
    assert_eq!(split_by_commas("a,"), ["a", ""]);
    assert_eq!(split_by_commas(""), [""]);
    assert_eq!(split_by_commas(",,a"), ["a"]);
    assert_eq!(split("a, b ,c", Separator::Comma, false), ["a", "b", "c"]);
}

#[test]
fn split_on_slash_parts() {
    assert_eq!(split_on_slash("12px/1.5"), ["12px", "1.5"]);
    assert_eq!(split_on_slash("12px/"), ["12px"]);
    assert_eq!(split_on_slash("/"), Vec::<String>::new());
    assert_eq!(split_on_slash("//"), Vec::<String>::new());
    assert_eq!(split_on_slash("a/b/c"), ["a", "b", "c"]);
}

#[test]
fn every_part_is_trimmed() {
    // U+00A0 and U+3000 are white space to `trim`, though they do not separate
    let parts = split_by_commas("\u{a0}a\u{3000}, b\r");
    assert_eq!(parts, ["a", "b"]);
    for p in &parts {
        assert_eq!(p.trim(), p);
    }
}

#[test]
fn separator_characters() {
    assert!(Separator::Whitespace.matches(' '));
    assert!(Separator::Whitespace.matches('\n'));
    assert!(Separator::Whitespace.matches('\t'));
    assert!(!Separator::Whitespace.matches('\r'));
    assert!(Separator::Comma.matches(','));
    assert!(!Separator::Comma.matches(';'));
    assert!(Separator::Slash.matches('/'));
}

#[test]
fn white_space_matches_std() {
    for u in 0u32..=0x10ffff {
        if let Some(c) = char::from_u32(u) {
            assert_eq!(is_white_space_char(c), c.is_whitespace(), "{u:#x}");
        }
    }
}

#[test]
fn trimming_bounds() {
    let cs: Vec<char> = " \ta b\n ".chars().collect();
    assert_eq!(trim_bounds(&cs, 0, cs.len()), (2, 5));
    assert_eq!(trim_bounds(&cs, 0, 2), (2, 2));
    assert_eq!(trim_bounds(&cs, 3, 4), (4, 4));
}

#[test]
fn characters_and_equality() {
    assert_eq!(chars_of("aé€"), vec!['a', 'é', '€']);
    assert!(eq_str("bold", "bold"));
    assert!(!eq_str("bold", "Bold"));
    assert!(!eq_str("bold", "bolder"));
    assert!(eq_str("", ""));
}

#[test]
fn unquote_strips_one_quote_each_side() {
    assert_eq!(unquote("'a'"), "a");
    assert_eq!(unquote("\"a'"), "a");
    assert_eq!(unquote("''a''"), "'a'");
    assert_eq!(unquote("'"), "");
    assert_eq!(unquote("''"), "");
    assert_eq!(unquote("a"), "a");
    assert_eq!(unquote(" 'a' "), " 'a' ");
}

#[test]
fn or_normal_fills_empty() {
    assert_eq!(or_normal(String::new()), "normal");
    assert_eq!(or_normal("bold".to_string()), "bold");
}

#[test]
fn size_tokens() {
    assert!(is_size("12px"));
    assert!(is_size(".5em"));
    assert!(is_size("0"));
    assert!(is_size("a/b"));
    assert!(is_size("large"));
    assert!(is_size("xx-small"));
    assert!(!is_size("bold"));
    assert!(!is_size("Large"));
    assert!(!is_size(""));
    assert!(!is_size("-1px"));
}

#[test]
fn line_height_text() {
    assert_eq!(parse_line_height("normal"), LineHeight::Normal);
    assert_eq!(parse_line_height("1.5"), LineHeight::Value("1.5".into()));
    assert_eq!(parse_line_height("Normal"), LineHeight::Value("Normal".into()));
}

#[test]
fn prefix_order_does_not_matter() {
    let orders = [
        "italic bold condensed small-caps 12px serif",
        "bold italic condensed small-caps 12px serif",
        "small-caps condensed bold italic 12px serif",
        "condensed small-caps italic normal bold 12px serif",
    ];
    let first = parse(orders[0]);
    for v in orders {
        assert_eq!(parse(v), first);
    }
    assert_eq!(shorthand(orders[0]).variant, "small-caps");
}

#[test]
fn variant_tokens_keep_their_order() {
    assert_eq!(shorthand("a b 12px serif").variant, "a b");
    assert_eq!(shorthand("b a 12px serif").variant, "b a");
}

#[test]
fn which_duplicate_is_reported_follows_the_order() {
    assert_eq!(parse("italic bold italic bold 12px x"), Err(ParseError::DuplicateStyle));
    assert_eq!(parse("italic bold bold italic 12px x"), Err(ParseError::DuplicateWeight));
}

#[test]
fn size_is_required() {
    assert_eq!(parse("bold italic x y"), Err(ParseError::MissingFontSize));
    assert_eq!(parse("normal"), Err(ParseError::MissingFontSize));
    assert_eq!(parse("   "), Err(ParseError::MissingFontSize));
}

#[test]
fn family_is_required() {
    assert_eq!(parse("12px /"), Err(ParseError::MissingFontFamily));
    assert_eq!(parse("12px / 2"), Err(ParseError::MissingFontFamily));
    assert_eq!(parse("bold 12px/2"), Err(ParseError::MissingFontFamily));
    assert_eq!(shorthand("12px / 2 x").family, ["x"]);
}

#[test]
fn size_token_of_slashes_alone_is_a_missing_size() {
    assert_eq!(parse("/ serif"), Err(ParseError::MissingFontSize));
    assert_eq!(parse("bold // serif"), Err(ParseError::MissingFontSize));
    assert_eq!(parse("italic / 12px serif"), Err(ParseError::MissingFontSize));
    assert_eq!(parse("italic italic / serif"), Err(ParseError::DuplicateStyle));
}

#[test]
fn shorthand_fields_are_well_formed() {
    for v in ["12px a", "oblique 12px a", "900 12px a", "ultra-expanded 12px a", "\r 12px a"] {
        let f = shorthand(v);
        assert!(["normal", "italic", "oblique"].contains(&f.style.as_str()));
        assert!(!f.variant.is_empty());
        assert!(!f.family.is_empty());
    }
    assert_eq!(shorthand("\r 12px a").variant, "normal");
}

#[test]
fn size_and_line_height_forms() {
    let f = shorthand("12px/1.5/2 A");
    assert_eq!(f.size, "12px");
    assert_eq!(f.line_height, LineHeight::Value("1.5".into()));
    let f = shorthand("12px/ A");
    assert_eq!(f.line_height, LineHeight::Normal);
    assert_eq!(f.family, ["A"]);
    let f = shorthand("/5 A");
    assert_eq!(f.size, "5");
    // U+00A0 does not separate tokens, but it is trimmed off the token
    assert_eq!(shorthand("12px\u{a0} serif").size, "12px");
}

#[test]
fn family_list_is_joined_then_split() {
    assert_eq!(shorthand("12px  a   b ,c").family, ["a b", "c"]);
    assert_eq!(shorthand("12px a,").family, ["a", ""]);
    assert_eq!(shorthand("12px 'x', \"y\"").family, ["x", "y"]);
}

#[test]
fn line_height_text_round_trip() {
    assert_eq!(LineHeight::Normal.to_text(), "normal");
    assert_eq!(LineHeight::Value("14px".into()).to_text(), "14px");
    for v in ["normal", "1.5", "14px", "calc(1em + 2px)"] {
        let lh = parse_line_height(v);
        assert_eq!(lh.to_text(), v);
        assert_eq!(parse_line_height(&lh.to_text()), lh);
    }
}

#[test]
fn parts_split_again_into_themselves() {
    let cases = [
        ("a, 'b, c' ,f(x, y), \\,", Separator::Comma),
        ("12px/1.5/'x/y'", Separator::Slash),
        (" a\tb\n(c d)  \"e f\" \r g", Separator::Whitespace),
        ("(unclosed, a, b", Separator::Comma),
        ("'open, a, b", Separator::Comma),
    ];
    for (value, sep) in cases {
        for last in [false, true] {
            for part in split(value, sep, last) {
                if !part.is_empty() {
                    assert_eq!(split(&part, sep, false), [part.clone()]);
                    assert_eq!(split(&part, sep, true), [part.clone()]);
                }
            }
        }
    }
}

#[test]
fn prefix_permutations_give_the_same_result() {
    let prefix = ["normal", "oblique", "small-caps", "normal", "700", "semi-expanded"];
    let rests = ["12px/2 a, b", "12px", "serif", "bold 12px x", "12px / normal 'x y'"];
    let orders: [[usize; 6]; 5] = [
        [0, 1, 2, 3, 4, 5],
        [5, 4, 3, 2, 1, 0],
        [1, 0, 5, 2, 4, 3],
        [2, 5, 0, 4, 3, 1],
        [4, 3, 1, 5, 0, 2],
    ];
    for rest in rests {
        let base: Vec<&str> = orders[0].iter().map(|&i| prefix[i]).collect();
        let expected = parse(&format!("{} {}", base.join(" "), rest));
        for order in &orders {
            let q: Vec<&str> = order.iter().map(|&i| prefix[i]).collect();
            assert_eq!(parse(&format!("{} {}", q.join(" "), rest)), expected, "{rest}");
        }
    }
    // a repeated property after the reordered tokens is reported the same way
    assert_eq!(
        parse("bold italic condensed 12px x"),
        parse("condensed italic bold 12px x")
    );
    assert_eq!(parse("bold italic italic 12px x"), Err(ParseError::DuplicateStyle));
    assert_eq!(parse("italic bold italic 12px x"), Err(ParseError::DuplicateStyle));
}
