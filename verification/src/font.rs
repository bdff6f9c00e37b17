//! The values that a `font` shorthand parses into, and the keyword tables
//! and token tests that parsing goes by.

use vstd::prelude::*;

use crate::split::views;
use crate::text::{chars_of, eq_str};

verus! {

/// One of the six CSS system-font keywords.
#[derive(Debug, Clone, Copy, PartialEq, Eq, Hash, Structural)]
pub enum SystemFont {
    /// `caption`
    Caption,
    /// `icon`
    Icon,
    /// `menu`
    Menu,
    /// `message-box`
    MessageBox,
    /// `small-caption`
    SmallCaption,
    /// `status-bar`
    StatusBar,
}

/// The keyword of a system font as it appears in CSS.
pub open spec fn system_keyword(f: SystemFont) -> Seq<char> {
    match f {
        SystemFont::Caption => "caption"@,
        SystemFont::Icon => "icon"@,
        SystemFont::Menu => "menu"@,
        SystemFont::MessageBox => "message-box"@,
        SystemFont::SmallCaption => "small-caption"@,
        SystemFont::StatusBar => "status-bar"@,
    }
}

impl SystemFont {
    /// The keyword as it appears in CSS.
    pub fn as_str(self) -> (s: &'static str)
        ensures
            s@ == system_keyword(self),
    {
        match self {
            SystemFont::Caption => "caption",
            SystemFont::Icon => "icon",
            SystemFont::Menu => "menu",
            SystemFont::MessageBox => "message-box",
            SystemFont::SmallCaption => "small-caption",
            SystemFont::StatusBar => "status-bar",
        }
    }
}

/// The system font whose keyword is the whole of `v` (case-sensitive), if any.
pub open spec fn system_font_of(v: Seq<char>) -> Option<SystemFont> {
    if v == "caption"@ {
        Some(SystemFont::Caption)
    } else if v == "icon"@ {
        Some(SystemFont::Icon)
    } else if v == "menu"@ {
        Some(SystemFont::Menu)
    } else if v == "message-box"@ {
        Some(SystemFont::MessageBox)
    } else if v == "small-caption"@ {
        Some(SystemFont::SmallCaption)
    } else if v == "status-bar"@ {
        Some(SystemFont::StatusBar)
    } else {
        None
    }
}

/// Match the whole `value` against a system-font keyword (case-sensitive).
pub fn system_font(value: &str) -> (r: Option<SystemFont>)
    ensures
        r == system_font_of(value@),
{
    if eq_str(value, "caption") {
        Some(SystemFont::Caption)
    } else if eq_str(value, "icon") {
        Some(SystemFont::Icon)
    } else if eq_str(value, "menu") {
        Some(SystemFont::Menu)
    } else if eq_str(value, "message-box") {
        Some(SystemFont::MessageBox)
    } else if eq_str(value, "small-caption") {
        Some(SystemFont::SmallCaption)
    } else if eq_str(value, "status-bar") {
        Some(SystemFont::StatusBar)
    } else {
        None
    }
}

/// A `line-height` value. A value other than `normal` is kept as written;
/// whether it reads as a unitless number is a question of floating point.
#[derive(Debug, Clone, PartialEq)]
pub enum LineHeight {
    /// `normal` (the default).
    Normal,
    /// Any other value, as written: a unitless multiplier such as `1.5`, or a
    /// value with a unit such as `14px`.
    Value(String),
}

/// The model of a [`LineHeight`].
pub enum LineHeightView {
    Normal,
    Value(Seq<char>),
}

impl View for LineHeight {
    type V = LineHeightView;

    open spec fn view(&self) -> LineHeightView {
        match self {
            LineHeight::Normal => LineHeightView::Normal,
            LineHeight::Value(s) => LineHeightView::Value(s@),
        }
    }
}

/// The text of a line-height as CSS writes it.
pub open spec fn line_height_text(lh: LineHeightView) -> Seq<char> {
    match lh {
        LineHeightView::Normal => "normal"@,
        LineHeightView::Value(v) => v,
    }
}

impl LineHeight {
    /// The line-height as CSS writes it: `normal`, or the value as given.
    pub fn to_text(&self) -> (r: String)
        ensures
            r@ == line_height_text(self@),
    {
        match self {
            LineHeight::Normal => "normal".to_owned(),
            LineHeight::Value(v) => v.clone(),
        }
    }
}

/// The line-height that the text `v` stands for.
pub open spec fn line_height_of(v: Seq<char>) -> LineHeightView {
    if v == "normal"@ {
        LineHeightView::Normal
    } else {
        LineHeightView::Value(v)
    }
}

/// Writing out a line-height that was read from text, and reading it again,
/// gives the same line-height.
pub proof fn lemma_line_height_text_round_trip(v: Seq<char>)
    ensures
        line_height_of(line_height_text(line_height_of(v))) == line_height_of(v),
{
}

/// Read a line-height value: `normal` is [`LineHeight::Normal`], anything
/// else is kept as written.
pub fn parse_line_height(value: &str) -> (r: LineHeight)
    ensures
        r@ == line_height_of(value@),
{
    if eq_str(value, "normal") {
        LineHeight::Normal
    } else {
        LineHeight::Value(value.to_owned())
    }
}

/// The components of a parsed `font` shorthand. Each property defaults to
/// `"normal"` when not specified, matching the CSS `font` shorthand.
#[derive(Debug, Clone, PartialEq)]
pub struct Shorthand {
    /// `font-style`, e.g. `"normal"`, `"italic"`, `"oblique"`.
    pub style: String,
    /// `font-variant`, e.g. `"normal"`, `"small-caps"`.
    pub variant: String,
    /// `font-weight`, e.g. `"normal"`, `"bold"`, `"400"`.
    pub weight: String,
    /// `font-stretch`, e.g. `"normal"`, `"condensed"`.
    pub stretch: String,
    /// `font-size`, e.g. `"12px"`, `"1em"`, `"x-large"`.
    pub size: String,
    /// `line-height`.
    pub line_height: LineHeight,
    /// The `font-family` list, in order, with surrounding quotes removed.
    pub family: Vec<String>,
}

/// The model of a [`Shorthand`].
pub struct ShorthandView {
    pub style: Seq<char>,
    pub variant: Seq<char>,
    pub weight: Seq<char>,
    pub stretch: Seq<char>,
    pub size: Seq<char>,
    pub line_height: LineHeightView,
    pub family: Seq<Seq<char>>,
}

impl View for Shorthand {
    type V = ShorthandView;

    open spec fn view(&self) -> ShorthandView {
        ShorthandView {
            style: self.style@,
            variant: self.variant@,
            weight: self.weight@,
            stretch: self.stretch@,
            size: self.size@,
            line_height: self.line_height@,
            family: views(self.family@),
        }
    }
}

/// A parsed CSS `font` value: either a system-font keyword or the shorthand parts.
#[derive(Debug, Clone, PartialEq)]
pub enum Font {
    /// A system-font keyword such as `caption` or `menu`.
    System(SystemFont),
    /// The parsed `font` shorthand components.
    Shorthand(Shorthand),
}

/// The model of a [`Font`].
pub enum FontView {
    System(SystemFont),
    Shorthand(ShorthandView),
}

impl View for Font {
    type V = FontView;

    open spec fn view(&self) -> FontView {
        match self {
            Font::System(f) => FontView::System(*f),
            Font::Shorthand(s) => FontView::Shorthand(s@),
        }
    }
}

/// An error returned when a `font` value cannot be parsed.
#[derive(Debug, Clone, Copy, PartialEq, Eq, Structural)]
pub enum ParseError {
    /// The input was an empty string.
    EmptyString,
    /// No `font-size` was found.
    MissingFontSize,
    /// No `font-family` was found.
    MissingFontFamily,
    /// `font-style` was specified more than once.
    DuplicateStyle,
    /// `font-weight` was specified more than once.
    DuplicateWeight,
    /// `font-stretch` was specified more than once.
    DuplicateStretch,
}

/// The message that describes an error.
pub open spec fn error_message(e: ParseError) -> Seq<char> {
    match e {
        ParseError::EmptyString => "cannot parse an empty string"@,
        ParseError::MissingFontSize => "missing required font-size"@,
        ParseError::MissingFontFamily => "missing required font-family"@,
        ParseError::DuplicateStyle => "font-style already defined"@,
        ParseError::DuplicateWeight => "font-weight already defined"@,
        ParseError::DuplicateStretch => "font-stretch already defined"@,
    }
}

impl ParseError {
    /// The message that describes this error.
    pub fn message(self) -> (m: &'static str)
        ensures
            m@ == error_message(self),
    {
        match self {
            ParseError::EmptyString => "cannot parse an empty string",
            ParseError::MissingFontSize => "missing required font-size",
            ParseError::MissingFontFamily => "missing required font-family",
            ParseError::DuplicateStyle => "font-style already defined",
            ParseError::DuplicateWeight => "font-weight already defined",
            ParseError::DuplicateStretch => "font-stretch already defined",
        }
    }
}

/// `font-style` keywords.
pub open spec fn is_style_keyword(t: Seq<char>) -> bool {
    t == "normal"@ || t == "italic"@ || t == "oblique"@
}

/// `font-weight` keywords.
pub open spec fn is_weight_keyword(t: Seq<char>) -> bool {
    ||| t == "normal"@
    ||| t == "bold"@
    ||| t == "bolder"@
    ||| t == "lighter"@
    ||| t == "100"@
    ||| t == "200"@
    ||| t == "300"@
    ||| t == "400"@
    ||| t == "500"@
    ||| t == "600"@
    ||| t == "700"@
    ||| t == "800"@
    ||| t == "900"@
}

/// `font-stretch` keywords.
pub open spec fn is_stretch_keyword(t: Seq<char>) -> bool {
    ||| t == "normal"@
    ||| t == "condensed"@
    ||| t == "semi-condensed"@
    ||| t == "extra-condensed"@
    ||| t == "ultra-condensed"@
    ||| t == "expanded"@
    ||| t == "semi-expanded"@
    ||| t == "extra-expanded"@
    ||| t == "ultra-expanded"@
}

/// `font-size` keywords.
pub open spec fn is_size_keyword(t: Seq<char>) -> bool {
    ||| t == "xx-small"@
    ||| t == "x-small"@
    ||| t == "small"@
    ||| t == "medium"@
    ||| t == "large"@
    ||| t == "x-large"@
    ||| t == "xx-large"@
    ||| t == "larger"@
    ||| t == "smaller"@
}

/// Whether `token` is a `font-style` keyword.
pub fn style_keyword(token: &str) -> (r: bool)
    ensures
        r == is_style_keyword(token@),
{
    eq_str(token, "normal") || eq_str(token, "italic") || eq_str(token, "oblique")
}

/// Whether `token` is a `font-weight` keyword.
pub fn weight_keyword(token: &str) -> (r: bool)
    ensures
        r == is_weight_keyword(token@),
{
    eq_str(token, "normal") || eq_str(token, "bold") || eq_str(token, "bolder") || eq_str(
        token,
        "lighter",
    ) || eq_str(token, "100") || eq_str(token, "200") || eq_str(token, "300") || eq_str(
        token,
        "400",
    ) || eq_str(token, "500") || eq_str(token, "600") || eq_str(token, "700") || eq_str(
        token,
        "800",
    ) || eq_str(token, "900")
}

/// Whether `token` is a `font-stretch` keyword.
pub fn stretch_keyword(token: &str) -> (r: bool)
    ensures
        r == is_stretch_keyword(token@),
{
    eq_str(token, "normal") || eq_str(token, "condensed") || eq_str(token, "semi-condensed")
        || eq_str(token, "extra-condensed") || eq_str(token, "ultra-condensed") || eq_str(
        token,
        "expanded",
    ) || eq_str(token, "semi-expanded") || eq_str(token, "extra-expanded") || eq_str(
        token,
        "ultra-expanded",
    )
}

/// Whether `token` is a `font-size` keyword.
pub fn size_keyword(token: &str) -> (r: bool)
    ensures
        r == is_size_keyword(token@),
{
    eq_str(token, "xx-small") || eq_str(token, "x-small") || eq_str(token, "small") || eq_str(
        token,
        "medium",
    ) || eq_str(token, "large") || eq_str(token, "x-large") || eq_str(token, "xx-large")
        || eq_str(token, "larger") || eq_str(token, "smaller")
}

/// An ASCII decimal digit.
pub open spec fn is_ascii_digit(c: char) -> bool {
    '0' <= c <= '9'
}

/// A font-size: it starts with a digit or `.`, contains `/`, or is a
/// font-size keyword.
pub open spec fn is_size_token(t: Seq<char>) -> bool {
    ||| t.len() > 0 && (is_ascii_digit(t[0]) || t[0] == '.')
    ||| t.contains('/')
    ||| is_size_keyword(t)
}

/// Whether a token is a font-size: it starts with a digit or `.`, contains
/// `/`, or is a font-size keyword.
pub fn is_size(token: &str) -> (r: bool)
    ensures
        r == is_size_token(token@),
{
    let cs = chars_of(token);
    if cs.len() > 0 && (('0' <= cs[0] && cs[0] <= '9') || cs[0] == '.') {
        return true;
    }
    let mut i: usize = 0;
    while i < cs.len()
        invariant
            cs@ == token@,
            i <= cs@.len(),
            forall|k: int| 0 <= k < i ==> cs@[k] != '/',
        decreases cs@.len() - i,
    {
        if cs[i] == '/' {
            assert(cs@[i as int] == '/');
            return true;
        }
        i = i + 1;
    }
    size_keyword(token)
}

/// A quote character.
pub open spec fn is_quote(c: char) -> bool {
    c == '"' || c == '\''
}

/// `s` with one leading and then one trailing quote character removed, where
/// there is one; the two need not match.
pub open spec fn unquoted(s: Seq<char>) -> Seq<char> {
    let s1 = if s.len() > 0 && is_quote(s[0]) {
        s.drop_first()
    } else {
        s
    };
    if s1.len() > 0 && is_quote(s1.last()) {
        s1.drop_last()
    } else {
        s1
    }
}

/// Strip one leading and one trailing quote character (either `"` or `'`,
/// and they need not match). Nothing is trimmed.
pub fn unquote(value: &str) -> (r: String)
    ensures
        r@ == unquoted(value@),
{
    let cs = chars_of(value);
    let mut a: usize = 0;
    let mut b: usize = cs.len();
    if b > 0 && (cs[0] == '"' || cs[0] == '\'') {
        a = 1;
    }
    if b > a && (cs[b - 1] == '"' || cs[b - 1] == '\'') {
        b = b - 1;
    }
    proof {
        let s = value@;
        let s1 = if s.len() > 0 && is_quote(s[0]) {
            s.drop_first()
        } else {
            s
        };
        assert(s1 =~= s.subrange(a as int, cs@.len() as int));
        if s1.len() > 0 && is_quote(s1.last()) {
            assert(s1.drop_last() =~= s.subrange(a as int, b as int));
        } else {
            assert(s1 =~= s.subrange(a as int, b as int));
        }
    }
    value.substring_char(a, b).to_owned()
}

/// `v`, or `normal` where `v` is empty.
pub open spec fn or_normal_spec(v: Seq<char>) -> Seq<char> {
    if v.len() == 0 {
        "normal"@
    } else {
        v
    }
}

/// `value`, or `"normal"` where it is empty.
pub fn or_normal(value: String) -> (r: String)
    ensures
        r@ == or_normal_spec(value@),
{
    if value.as_str().is_empty() {
        "normal".to_owned()
    } else {
        value
    }
}

} // verus!
