//! Parsing a whole `font` value: a system-font keyword, or the shorthand's
//! prefix of style, variant, weight and stretch, then the size with an
//! optional line-height, then the family list.

use vstd::prelude::*;

use crate::font::{
    is_size, is_size_token, is_stretch_keyword, is_style_keyword, is_weight_keyword,
    line_height_of, or_normal, or_normal_spec, parse_line_height, stretch_keyword, style_keyword,
    system_font, system_font_of, unquote, unquoted, weight_keyword, Font, FontView, LineHeight,
    LineHeightView, ParseError, Shorthand, ShorthandView,
};
use crate::split::{split_by_commas, split_by_spaces, split_on_slash, split_spec, views, Separator};
use crate::text::eq_str;

verus! {

/// The properties gathered from the tokens before the size; an empty one has
/// not been given yet.
pub struct Prefix {
    pub style: Seq<char>,
    pub variant: Seq<char>,
    pub weight: Seq<char>,
    pub stretch: Seq<char>,
}

/// Nothing gathered yet.
pub open spec fn no_prefix() -> Prefix {
    Prefix { style: Seq::empty(), variant: Seq::empty(), weight: Seq::empty(), stretch: Seq::empty() }
}

/// The variant after one more token that no other property claims: tokens
/// gather in order, separated by single spaces.
pub open spec fn add_to_variant(variant: Seq<char>, t: Seq<char>) -> Seq<char> {
    if variant.len() == 0 {
        t
    } else {
        variant + " "@ + t
    }
}

/// The tokens joined by single spaces.
pub open spec fn join_with_spaces(ts: Seq<Seq<char>>) -> Seq<char>
    decreases ts.len(),
{
    if ts.len() == 0 {
        Seq::empty()
    } else if ts.len() == 1 {
        ts[0]
    } else {
        join_with_spaces(ts.drop_last()) + " "@ + ts.last()
    }
}

/// The family list of the tokens from `next` on: joined by spaces, split on
/// top-level commas, each entry unquoted.
pub open spec fn family_of(tokens: Seq<Seq<char>>, next: int) -> Seq<Seq<char>> {
    split_spec(join_with_spaces(tokens.subrange(next, tokens.len() as int)), Separator::Comma, true)
        .map_values(|f: Seq<char>| unquoted(f))
}

/// The line-height given after the size token at `i`, and the index of the
/// first family token: either `size/line-height` in one token, or a
/// standalone `/` followed by the line-height, or no line-height at all.
pub open spec fn line_height_and_next(tokens: Seq<Seq<char>>, i: int, parts: Seq<Seq<char>>) -> (
    LineHeightView,
    int,
) {
    if parts.len() > 1 && parts[1].len() > 0 {
        (line_height_of(parts[1]), i + 1)
    } else if i + 1 < tokens.len() && tokens[i + 1] == "/"@ {
        if i + 2 < tokens.len() {
            (line_height_of(tokens[i + 2]), i + 3)
        } else {
            (LineHeightView::Normal, i + 2)
        }
    } else {
        (LineHeightView::Normal, i + 1)
    }
}

/// The result once the size token at `i` has been found. A size token made
/// of slashes alone has no size part, so the size counts as missing.
pub open spec fn finish_at_size(tokens: Seq<Seq<char>>, i: int, p: Prefix) -> Result<
    FontView,
    ParseError,
> {
    let parts = split_spec(tokens[i], Separator::Slash, false);
    if parts.len() == 0 {
        Err(ParseError::MissingFontSize)
    } else {
        let (line_height, next) = line_height_and_next(tokens, i, parts);
        if next >= tokens.len() {
            Err(ParseError::MissingFontFamily)
        } else {
            Ok(
                FontView::Shorthand(
                    ShorthandView {
                        style: or_normal_spec(p.style),
                        variant: or_normal_spec(p.variant),
                        weight: or_normal_spec(p.weight),
                        stretch: or_normal_spec(p.stretch),
                        size: parts[0],
                        line_height,
                        family: family_of(tokens, next),
                    },
                ),
            )
        }
    }
}

/// Whether a token belongs before the size: `normal`, a style, weight or
/// stretch keyword, or any token that is not a size.
pub open spec fn is_prefix_token(t: Seq<char>) -> bool {
    ||| t == "normal"@
    ||| is_style_keyword(t)
    ||| is_weight_keyword(t)
    ||| is_stretch_keyword(t)
    ||| !is_size_token(t)
}

/// Whether a prefix token is one that no property but the variant claims.
pub open spec fn is_variant_token(t: Seq<char>) -> bool {
    &&& t != "normal"@
    &&& !is_style_keyword(t)
    &&& !is_weight_keyword(t)
    &&& !is_stretch_keyword(t)
    &&& !is_size_token(t)
}

/// What one prefix token does to the properties gathered so far: `normal` is
/// skipped; a style, weight or stretch keyword fills its property, and a
/// second one of the same kind is an error; any other token joins the variant.
pub open spec fn absorb(p: Prefix, t: Seq<char>) -> Result<Prefix, ParseError> {
    if t == "normal"@ {
        Ok(p)
    } else if is_style_keyword(t) {
        if p.style.len() > 0 {
            Err(ParseError::DuplicateStyle)
        } else {
            Ok(Prefix { style: t, ..p })
        }
    } else if is_weight_keyword(t) {
        if p.weight.len() > 0 {
            Err(ParseError::DuplicateWeight)
        } else {
            Ok(Prefix { weight: t, ..p })
        }
    } else if is_stretch_keyword(t) {
        if p.stretch.len() > 0 {
            Err(ParseError::DuplicateStretch)
        } else {
            Ok(Prefix { stretch: t, ..p })
        }
    } else {
        Ok(Prefix { variant: add_to_variant(p.variant, t), ..p })
    }
}

/// The result of reading `tokens` from index `i` on, with `p` gathered so far:
/// prefix tokens are absorbed one by one, and the first size token ends the
/// prefix. Without a size token the size is missing.
pub open spec fn parse_tokens(tokens: Seq<Seq<char>>, i: int, p: Prefix) -> Result<
    FontView,
    ParseError,
>
    decreases tokens.len() - i,
{
    if i < 0 || i >= tokens.len() {
        Err(ParseError::MissingFontSize)
    } else if is_prefix_token(tokens[i]) {
        match absorb(p, tokens[i]) {
            Ok(p2) => parse_tokens(tokens, i + 1, p2),
            Err(e) => Err(e),
        }
    } else {
        finish_at_size(tokens, i, p)
    }
}

/// The whitespace-separated tokens of a value.
pub open spec fn tokens_of(v: Seq<char>) -> Seq<Seq<char>> {
    split_spec(v, Separator::Whitespace, false)
}

/// What parsing `v` gives: an error for the empty string, a system font for
/// one of its keywords, else the reading of its tokens.
pub open spec fn parse_spec(v: Seq<char>) -> Result<FontView, ParseError> {
    if v.len() == 0 {
        Err(ParseError::EmptyString)
    } else if system_font_of(v) is Some {
        Ok(FontView::System(system_font_of(v)->0))
    } else {
        parse_tokens(tokens_of(v), 0, no_prefix())
    }
}

/// The model of a parse result.
pub open spec fn result_view(r: Result<Font, ParseError>) -> Result<FontView, ParseError> {
    match r {
        Ok(f) => Ok(f@),
        Err(e) => Err(e),
    }
}

/// The tokens from `from` on, joined by single spaces.
fn join_tokens(tokens: &Vec<String>, from: usize) -> (r: String)
    requires
        from <= tokens@.len(),
    ensures
        r@ == join_with_spaces(views(tokens@).subrange(from as int, tokens@.len() as int)),
{
    let mut r = String::new();
    let mut i = from;
    assert(views(tokens@).subrange(from as int, from as int) =~= Seq::<Seq<char>>::empty());
    while i < tokens.len()
        invariant
            from <= i <= tokens@.len(),
            r@ == join_with_spaces(views(tokens@).subrange(from as int, i as int)),
        decreases tokens@.len() - i,
    {
        let ghost before = views(tokens@).subrange(from as int, i as int);
        let ghost after = views(tokens@).subrange(from as int, i + 1);
        assert(after.drop_last() =~= before);
        if i > from {
            r.append(" ");
        }
        r.append(tokens[i].as_str());
        i = i + 1;
    }
    r
}

/// Parse a CSS `font` shorthand value.
///
/// Gives [`ParseError`] for an empty string, a value missing the required
/// `font-size` or `font-family`, or a property specified more than once.
pub fn parse(value: &str) -> (r: Result<Font, ParseError>)
    ensures
        result_view(r) == parse_spec(value@),
{
    if value.is_empty() {
        return Err(ParseError::EmptyString);
    }
    if let Some(system) = system_font(value) {
        return Ok(Font::System(system));
    }
    let mut style = String::new();
    let mut variant = String::new();
    let mut weight = String::new();
    let mut stretch = String::new();

    let tokens = split_by_spaces(value);
    let ghost toks = views(tokens@);
    let mut idx: usize = 0;
    while idx < tokens.len()
        invariant
            toks == views(tokens@),
            toks == tokens_of(value@),
            idx <= tokens@.len(),
            parse_spec(value@) == parse_tokens(
                toks,
                idx as int,
                Prefix { style: style@, variant: variant@, weight: weight@, stretch: stretch@ },
            ),
        decreases tokens@.len() - idx,
    {
        let token = tokens[idx].as_str();
        assert(token@ == toks[idx as int]);
        let ghost at = idx as int;
        idx = idx + 1;

        if eq_str(token, "normal") {
            continue;
        }
        if style_keyword(token) {
            if !style.as_str().is_empty() {
                return Err(ParseError::DuplicateStyle);
            }
            style = token.to_owned();
            continue;
        }
        if weight_keyword(token) {
            if !weight.as_str().is_empty() {
                return Err(ParseError::DuplicateWeight);
            }
            weight = token.to_owned();
            continue;
        }
        if stretch_keyword(token) {
            if !stretch.as_str().is_empty() {
                return Err(ParseError::DuplicateStretch);
            }
            stretch = token.to_owned();
            continue;
        }
        if !is_size(token) {
            if variant.as_str().is_empty() {
                variant = token.to_owned();
            } else {
                variant.append(" ");
                variant.append(token);
            }
            continue;
        }
        // This token is the font-size, optionally `size/line-height`.

        let parts = split_on_slash(token);
        if parts.len() == 0 {
            return Err(ParseError::MissingFontSize);
        }
        let ghost pv = views(parts@);
        assert(pv[0] == parts@[0]@);
        let size = parts[0].clone();
        let mut line_height = LineHeight::Normal;
        if parts.len() > 1 && !parts[1].as_str().is_empty() {
            assert(pv[1] == parts@[1]@);
            line_height = parse_line_height(parts[1].as_str());
        } else if idx < tokens.len() && eq_str(tokens[idx].as_str(), "/") {
            assert(toks[idx as int] == tokens@[idx as int]@);
            idx = idx + 1;
            if idx < tokens.len() {
                assert(toks[idx as int] == tokens@[idx as int]@);
                line_height = parse_line_height(tokens[idx].as_str());
                idx = idx + 1;
            }
        }
        assert(line_height_and_next(toks, at, pv) == (line_height@, idx as int));
        if idx >= tokens.len() {
            return Err(ParseError::MissingFontFamily);
        }
        let joined = join_tokens(&tokens, idx);
        let names = split_by_commas(joined.as_str());
        let mut family: Vec<String> = Vec::new();
        let mut k: usize = 0;
        while k < names.len()
            invariant
                k <= names@.len(),
                views(family@) =~= views(names@).subrange(0, k as int).map_values(
                    |f: Seq<char>| unquoted(f),
                ),
            decreases names@.len() - k,
        {
            let name = unquote(names[k].as_str());
            let ghost before = family@;
            family.push(name);
            assert(views(family@) =~= views(before).push(name@));
            assert(views(names@)[k as int] == names@[k as int]@);
            k = k + 1;
        }
        assert(views(names@).subrange(0, names@.len() as int) =~= views(names@));
        let sh = Shorthand {
            style: or_normal(style),
            variant: or_normal(variant),
            weight: or_normal(weight),
            stretch: or_normal(stretch),
            size,
            line_height,
            family,
        };
        return Ok(Font::Shorthand(sh));
    }
    Err(ParseError::MissingFontSize)
}

} // verus!
