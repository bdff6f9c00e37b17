//! What parsing does with the keywords that CSS defines for the `font`
//! shorthand, with line-heights, and with family lists, stated over the
//! CSS keyword catalogues and the text of a value.

use vstd::prelude::*;

use crate::font::{
    line_height_of, line_height_text, or_normal_spec, unquoted, FontView,
    LineHeightView, ParseError, ShorthandView, SystemFont,
};
use crate::order::{
    kind_of, lemma_no_space_in_system_keyword, lemma_tokens_of_join, TokenKind,
};
use crate::parse::{
    absorb, family_of, finish_at_size, is_prefix_token, join_with_spaces, no_prefix, parse_spec, parse_tokens,
    tokens_of, Prefix,
};
use crate::split::{
    is_plain_char, is_plain_token, lemma_split_concat, lemma_split_unbroken, outside, scan,
    split_spec, Separator,
};

verus! {

/// The `font-style` keywords of CSS other than `normal`.
pub open spec fn css_style_word(t: Seq<char>) -> bool {
    t == "italic"@ || t == "oblique"@
}

/// The `font-weight` keywords of CSS other than `normal`.
pub open spec fn css_weight_word(t: Seq<char>) -> bool {
    ||| t == "bold"@
    ||| t == "bolder"@
    ||| t == "lighter"@
    ||| t == "100"@
    ||| t == "200"@
    ||| t == "300"@
    ||| t == "400"@
    ||| t == "500"@
    ||| t == "600"@
    ||| t == "700"@
    ||| t == "800"@
    ||| t == "900"@
}

/// The `font-stretch` keywords of CSS other than `normal`.
pub open spec fn css_stretch_word(t: Seq<char>) -> bool {
    ||| t == "condensed"@
    ||| t == "semi-condensed"@
    ||| t == "extra-condensed"@
    ||| t == "ultra-condensed"@
    ||| t == "expanded"@
    ||| t == "semi-expanded"@
    ||| t == "extra-expanded"@
    ||| t == "ultra-expanded"@
}

/// The `font-size` keywords of CSS.
pub open spec fn css_size_word(t: Seq<char>) -> bool {
    ||| t == "xx-small"@
    ||| t == "x-small"@
    ||| t == "small"@
    ||| t == "medium"@
    ||| t == "large"@
    ||| t == "x-large"@
    ||| t == "xx-large"@
    ||| t == "larger"@
    ||| t == "smaller"@
}

proof fn reveal_css_words()
    ensures
        "normal"@.len() == 6 && "normal"@[0] == 'n',
        "italic"@.len() == 6 && "italic"@[0] == 'i',
        "oblique"@.len() == 7 && "oblique"@[0] == 'o',
        "bold"@.len() == 4 && "bold"@[0] == 'b',
        "bolder"@.len() == 6 && "bolder"@[0] == 'b',
        "lighter"@.len() == 7 && "lighter"@[0] == 'l',
        "100"@.len() == 3 && "100"@[0] == '1',
        "200"@.len() == 3 && "200"@[0] == '2',
        "300"@.len() == 3 && "300"@[0] == '3',
        "400"@.len() == 3 && "400"@[0] == '4',
        "500"@.len() == 3 && "500"@[0] == '5',
        "600"@.len() == 3 && "600"@[0] == '6',
        "700"@.len() == 3 && "700"@[0] == '7',
        "800"@.len() == 3 && "800"@[0] == '8',
        "900"@.len() == 3 && "900"@[0] == '9',
        "condensed"@.len() == 9 && "condensed"@[0] == 'c',
        "semi-condensed"@.len() == 14 && "semi-condensed"@[0] == 's',
        "extra-condensed"@.len() == 15 && "extra-condensed"@[0] == 'e',
        "ultra-condensed"@.len() == 15 && "ultra-condensed"@[0] == 'u',
        "expanded"@.len() == 8 && "expanded"@[0] == 'e',
        "semi-expanded"@.len() == 13 && "semi-expanded"@[0] == 's',
        "extra-expanded"@.len() == 14 && "extra-expanded"@[0] == 'e',
        "ultra-expanded"@.len() == 14 && "ultra-expanded"@[0] == 'u',
        "xx-small"@.len() == 8 && "xx-small"@[0] == 'x',
        "x-small"@.len() == 7 && "x-small"@[0] == 'x',
        "small"@.len() == 5 && "small"@[0] == 's',
        "medium"@.len() == 6 && "medium"@[0] == 'm',
        "large"@.len() == 5 && "large"@[0] == 'l',
        "x-large"@.len() == 7 && "x-large"@[0] == 'x',
        "xx-large"@.len() == 8 && "xx-large"@[0] == 'x',
        "larger"@.len() == 6 && "larger"@[0] == 'l',
        "smaller"@.len() == 7 && "smaller"@[0] == 's',
        "x-small"@[2] == 's',
        "x-large"@[2] == 'l',
        "xx-small"@[3] == 's',
        "xx-large"@[3] == 'l',
        "100"@[2] == '0' && "200"@[2] == '0' && "300"@[2] == '0' && "400"@[2] == '0',
        "500"@[2] == '0' && "600"@[2] == '0' && "700"@[2] == '0' && "800"@[2] == '0',
        "900"@[2] == '0',
{
    reveal_strlit("normal");
    reveal_strlit("italic");
    reveal_strlit("oblique");
    reveal_strlit("bold");
    reveal_strlit("bolder");
    reveal_strlit("lighter");
    reveal_strlit("100");
    reveal_strlit("200");
    reveal_strlit("300");
    reveal_strlit("400");
    reveal_strlit("500");
    reveal_strlit("600");
    reveal_strlit("700");
    reveal_strlit("800");
    reveal_strlit("900");
    reveal_strlit("condensed");
    reveal_strlit("semi-condensed");
    reveal_strlit("extra-condensed");
    reveal_strlit("ultra-condensed");
    reveal_strlit("expanded");
    reveal_strlit("semi-expanded");
    reveal_strlit("extra-expanded");
    reveal_strlit("ultra-expanded");
    reveal_strlit("xx-small");
    reveal_strlit("x-small");
    reveal_strlit("small");
    reveal_strlit("medium");
    reveal_strlit("large");
    reveal_strlit("x-large");
    reveal_strlit("xx-large");
    reveal_strlit("larger");
    reveal_strlit("smaller");
}

/// Every CSS keyword is read as what CSS makes it: `normal` is skipped, each
/// style, weight and stretch keyword fills its property, and each size
/// keyword is a size.
pub proof fn lemma_css_words_kinds(t: Seq<char>)
    ensures
        t == "normal"@ ==> kind_of(t) == TokenKind::Normal,
        css_style_word(t) ==> kind_of(t) == TokenKind::Style,
        css_weight_word(t) ==> kind_of(t) == TokenKind::Weight,
        css_stretch_word(t) ==> kind_of(t) == TokenKind::Stretch,
        css_size_word(t) ==> kind_of(t) == TokenKind::Size,
{
    reveal_css_words();
}

/// A line-height is `normal` exactly when its text is `normal`; any other
/// text is kept as written, so the line-height's text is always the text it
/// was read from.
pub proof fn lemma_line_height_keeps_text(v: Seq<char>)
    ensures
        (line_height_of(v) is Normal) <==> v == "normal"@,
        line_height_text(line_height_of(v)) == v,
        v != "normal"@ ==> line_height_of(v) == LineHeightView::Value(v),
{
}

/// Family names joined by commas, with no spaces.
pub open spec fn join_commas(names: Seq<Seq<char>>) -> Seq<char>
    decreases names.len(),
{
    if names.len() == 0 {
        Seq::empty()
    } else if names.len() == 1 {
        names[0]
    } else {
        join_commas(names.drop_last()) + seq![','] + names.last()
    }
}

/// A family name of plain characters with no comma or slash.
pub open spec fn is_simple_name(n: Seq<char>) -> bool {
    is_plain_token(n) && forall|i: int| 0 <= i < n.len() ==> #[trigger] n[i] != ',' && n[i] != '/'
}

/// A non-empty text of plain characters with no slash.
pub open spec fn is_slashless_plain(t: Seq<char>) -> bool {
    is_plain_token(t) && forall|i: int| 0 <= i < t.len() ==> #[trigger] t[i] != '/'
}

/// Names joined by commas split on commas into those names, and the joined
/// text is one plain token with no slash.
proof fn lemma_join_commas(names: Seq<Seq<char>>, last: bool)
    requires
        names.len() >= 1,
        forall|i: int| 0 <= i < names.len() ==> is_simple_name(#[trigger] names[i]),
    ensures
        split_spec(join_commas(names), Separator::Comma, last) == names,
        scan(join_commas(names), Separator::Comma, join_commas(names).len() as int).nesting
            == outside(),
        is_slashless_plain(join_commas(names)),
    decreases names.len(),
{
    if names.len() == 1 {
        assert(is_simple_name(names[0]));
        lemma_split_unbroken(names[0], Separator::Comma, last);
        assert(seq![names[0]] =~= names);
    } else {
        let d = names.drop_last();
        let n = names.last();
        assert(is_simple_name(n));
        lemma_join_commas(d, false);
        lemma_split_unbroken(n, Separator::Comma, last);
        let a = join_commas(d);
        lemma_split_concat(a, ',', n, Separator::Comma, last);
        assert(d + seq![n] =~= names);
        let w = a + seq![','] + n;
        assert forall|i: int| 0 <= i < w.len() implies is_plain_char(#[trigger] w[i]) && w[i] != '/' by {
            if i < a.len() {
                assert(w[i] == a[i]);
            } else if i == a.len() {
                assert(w[i] == ',');
            } else {
                assert(w[i] == n[i - a.len() - 1]);
            }
        }
    }
}

/// A plain token has no quote to strip.
proof fn lemma_unquoted_plain(n: Seq<char>)
    requires
        is_plain_token(n),
    ensures
        unquoted(n) == n,
{
    assert(is_plain_char(n[0]));
    assert(is_plain_char(n.last()));
}

/// With the size token at `i` and one more token of comma-joined names, the
/// shorthand has that size, no line-height, and exactly those names.
proof fn lemma_finish_with_names(tokens: Seq<Seq<char>>, i: int, p: Prefix, names: Seq<Seq<char>>)
    requires
        0 <= i,
        tokens.len() == i + 2,
        is_slashless_plain(tokens[i]),
        tokens[i + 1] == join_commas(names),
        names.len() >= 1,
        forall|k: int| 0 <= k < names.len() ==> is_simple_name(#[trigger] names[k]),
    ensures
        finish_at_size(tokens, i, p) == Ok::<FontView, ParseError>(
            FontView::Shorthand(
                ShorthandView {
                    style: or_normal_spec(p.style),
                    variant: or_normal_spec(p.variant),
                    weight: or_normal_spec(p.weight),
                    stretch: or_normal_spec(p.stretch),
                    size: tokens[i],
                    line_height: LineHeightView::Normal,
                    family: names,
                },
            ),
        ),
{
    reveal_strlit("/");
    let s = tokens[i];
    let t = join_commas(names);
    lemma_split_unbroken(s, Separator::Slash, false);
    lemma_join_commas(names, true);
    assert(t[0] != '/');
    assert("/"@[0] == '/');
    assert(tokens[i + 1] != "/"@);
    lemma_family_of_names(tokens, i + 1, names);
}

/// The family read from a last token of comma-joined names is those names.
proof fn lemma_family_of_names(tokens: Seq<Seq<char>>, next: int, names: Seq<Seq<char>>)
    requires
        0 <= next,
        tokens.len() == next + 1,
        tokens[next] == join_commas(names),
        names.len() >= 1,
        forall|k: int| 0 <= k < names.len() ==> is_simple_name(#[trigger] names[k]),
    ensures
        family_of(tokens, next) == names,
{
    let t = join_commas(names);
    lemma_join_commas(names, true);
    assert(tokens.subrange(next, tokens.len() as int) =~= seq![t]);
    assert(join_with_spaces(seq![t]) == t);
    assert forall|k: int| 0 <= k < names.len() implies unquoted(#[trigger] names[k]) == names[k] by {
        assert(is_simple_name(names[k]));
        lemma_unquoted_plain(names[k]);
    }
    assert(names.map_values(|f: Seq<char>| unquoted(f)) =~= names);
}

/// A value holding a space is read as its tokens.
proof fn lemma_read_as_tokens(ts: Seq<Seq<char>>, v: Seq<char>)
    requires
        ts.len() >= 2,
        forall|k: int| 0 <= k < ts.len() ==> is_plain_token(#[trigger] ts[k]),
        v == join_with_spaces(ts),
    ensures
        parse_spec(v) == parse_tokens(ts, 0, no_prefix()),
{
    reveal_strlit(" ");
    lemma_tokens_of_join(ts);
    let a = join_with_spaces(ts.drop_last());
    assert(v == a + " "@ + ts.last());
    assert(v[a.len() as int] == ' ');
    lemma_no_space_in_system_keyword(v, a.len() as int);
}

/// A size that starts with a digit and does not end in one (a length or a
/// percentage such as `12px` or `50%`) is no keyword.
pub open spec fn is_dimension(s: Seq<char>) -> bool {
    &&& is_slashless_plain(s)
    &&& forall|i: int| 0 <= i < s.len() ==> #[trigger] s[i] != ','
    &&& '0' <= s[0] <= '9'
    &&& !('0' <= s.last() <= '9')
}

proof fn lemma_dimension_is_size(s: Seq<char>)
    requires
        is_dimension(s),
    ensures
        !is_prefix_token(s),
{
    reveal_css_words();
}

/// The font-family list holds one entry for each comma-separated name after
/// the size, in order, however many there are: `12px a,b,c` has the family
/// `a`, `b`, `c`, with every other property at its default.
pub proof fn lemma_family_lists_every_name(s: Seq<char>, names: Seq<Seq<char>>)
    requires
        is_dimension(s),
        names.len() >= 1,
        forall|k: int| 0 <= k < names.len() ==> is_simple_name(#[trigger] names[k]),
    ensures
        parse_spec(s + " "@ + join_commas(names)) == Ok::<FontView, ParseError>(
            FontView::Shorthand(
                ShorthandView {
                    style: "normal"@,
                    variant: "normal"@,
                    weight: "normal"@,
                    stretch: "normal"@,
                    size: s,
                    line_height: LineHeightView::Normal,
                    family: names,
                },
            ),
        ),
{
    reveal_strlit(" ");
    let t = join_commas(names);
    lemma_join_commas(names, true);
    let ts = seq![s, t];
    assert(ts.drop_last() =~= seq![s]);
    assert(join_with_spaces(seq![s]) == s);
    assert(ts.last() == t);
    assert(join_with_spaces(ts) == s + " "@ + t);
    lemma_read_as_tokens(ts, s + " "@ + t);
    lemma_dimension_is_size(s);
    lemma_finish_with_names(ts, 0, no_prefix(), names);
}

/// Every CSS keyword is a plain token with no comma or slash.
proof fn lemma_css_words_plain(t: Seq<char>)
    requires
        css_style_word(t) || css_weight_word(t) || css_stretch_word(t) || css_size_word(t),
    ensures
        is_slashless_plain(t),
        forall|i: int| 0 <= i < t.len() ==> #[trigger] t[i] != ',',
{
    if t == "italic"@ {
        reveal_strlit("italic");
        assert forall|i: int| 0 <= i < t.len() implies is_plain_char(#[trigger] t[i]) && t[i]
            != '/' && t[i] != ',' by {
            assert('a' <= t[i] <= 'z' || '0' <= t[i] <= '9' || t[i] == '-');
        }
    }
    if t == "oblique"@ {
        reveal_strlit("oblique");
        assert forall|i: int| 0 <= i < t.len() implies is_plain_char(#[trigger] t[i]) && t[i]
            != '/' && t[i] != ',' by {
            assert('a' <= t[i] <= 'z' || '0' <= t[i] <= '9' || t[i] == '-');
        }
    }
    if t == "bold"@ {
        reveal_strlit("bold");
        assert forall|i: int| 0 <= i < t.len() implies is_plain_char(#[trigger] t[i]) && t[i]
            != '/' && t[i] != ',' by {
            assert('a' <= t[i] <= 'z' || '0' <= t[i] <= '9' || t[i] == '-');
        }
    }
    if t == "bolder"@ {
        reveal_strlit("bolder");
        assert forall|i: int| 0 <= i < t.len() implies is_plain_char(#[trigger] t[i]) && t[i]
            != '/' && t[i] != ',' by {
            assert('a' <= t[i] <= 'z' || '0' <= t[i] <= '9' || t[i] == '-');
        }
    }
    if t == "lighter"@ {
        reveal_strlit("lighter");
        assert forall|i: int| 0 <= i < t.len() implies is_plain_char(#[trigger] t[i]) && t[i]
            != '/' && t[i] != ',' by {
            assert('a' <= t[i] <= 'z' || '0' <= t[i] <= '9' || t[i] == '-');
        }
    }
    if t == "100"@ {
        reveal_strlit("100");
        assert forall|i: int| 0 <= i < t.len() implies is_plain_char(#[trigger] t[i]) && t[i]
            != '/' && t[i] != ',' by {
            assert('a' <= t[i] <= 'z' || '0' <= t[i] <= '9' || t[i] == '-');
        }
    }
    if t == "200"@ {
        reveal_strlit("200");
        assert forall|i: int| 0 <= i < t.len() implies is_plain_char(#[trigger] t[i]) && t[i]
            != '/' && t[i] != ',' by {
            assert('a' <= t[i] <= 'z' || '0' <= t[i] <= '9' || t[i] == '-');
        }
    }
    if t == "300"@ {
        reveal_strlit("300");
        assert forall|i: int| 0 <= i < t.len() implies is_plain_char(#[trigger] t[i]) && t[i]
            != '/' && t[i] != ',' by {
            assert('a' <= t[i] <= 'z' || '0' <= t[i] <= '9' || t[i] == '-');
        }
    }
    if t == "400"@ {
        reveal_strlit("400");
        assert forall|i: int| 0 <= i < t.len() implies is_plain_char(#[trigger] t[i]) && t[i]
            != '/' && t[i] != ',' by {
            assert('a' <= t[i] <= 'z' || '0' <= t[i] <= '9' || t[i] == '-');
        }
    }
    if t == "500"@ {
        reveal_strlit("500");
        assert forall|i: int| 0 <= i < t.len() implies is_plain_char(#[trigger] t[i]) && t[i]
            != '/' && t[i] != ',' by {
            assert('a' <= t[i] <= 'z' || '0' <= t[i] <= '9' || t[i] == '-');
        }
    }
    if t == "600"@ {
        reveal_strlit("600");
        assert forall|i: int| 0 <= i < t.len() implies is_plain_char(#[trigger] t[i]) && t[i]
            != '/' && t[i] != ',' by {
            assert('a' <= t[i] <= 'z' || '0' <= t[i] <= '9' || t[i] == '-');
        }
    }
    if t == "700"@ {
        reveal_strlit("700");
        assert forall|i: int| 0 <= i < t.len() implies is_plain_char(#[trigger] t[i]) && t[i]
            != '/' && t[i] != ',' by {
            assert('a' <= t[i] <= 'z' || '0' <= t[i] <= '9' || t[i] == '-');
        }
    }
    if t == "800"@ {
        reveal_strlit("800");
        assert forall|i: int| 0 <= i < t.len() implies is_plain_char(#[trigger] t[i]) && t[i]
            != '/' && t[i] != ',' by {
            assert('a' <= t[i] <= 'z' || '0' <= t[i] <= '9' || t[i] == '-');
        }
    }
    if t == "900"@ {
        reveal_strlit("900");
        assert forall|i: int| 0 <= i < t.len() implies is_plain_char(#[trigger] t[i]) && t[i]
            != '/' && t[i] != ',' by {
            assert('a' <= t[i] <= 'z' || '0' <= t[i] <= '9' || t[i] == '-');
        }
    }
    if t == "condensed"@ {
        reveal_strlit("condensed");
        assert forall|i: int| 0 <= i < t.len() implies is_plain_char(#[trigger] t[i]) && t[i]
            != '/' && t[i] != ',' by {
            assert('a' <= t[i] <= 'z' || '0' <= t[i] <= '9' || t[i] == '-');
        }
    }
    if t == "semi-condensed"@ {
        reveal_strlit("semi-condensed");
        assert forall|i: int| 0 <= i < t.len() implies is_plain_char(#[trigger] t[i]) && t[i]
            != '/' && t[i] != ',' by {
            assert('a' <= t[i] <= 'z' || '0' <= t[i] <= '9' || t[i] == '-');
        }
    }
    if t == "extra-condensed"@ {
        reveal_strlit("extra-condensed");
        assert forall|i: int| 0 <= i < t.len() implies is_plain_char(#[trigger] t[i]) && t[i]
            != '/' && t[i] != ',' by {
            assert('a' <= t[i] <= 'z' || '0' <= t[i] <= '9' || t[i] == '-');
        }
    }
    if t == "ultra-condensed"@ {
        reveal_strlit("ultra-condensed");
        assert forall|i: int| 0 <= i < t.len() implies is_plain_char(#[trigger] t[i]) && t[i]
            != '/' && t[i] != ',' by {
            assert('a' <= t[i] <= 'z' || '0' <= t[i] <= '9' || t[i] == '-');
        }
    }
    if t == "expanded"@ {
        reveal_strlit("expanded");
        assert forall|i: int| 0 <= i < t.len() implies is_plain_char(#[trigger] t[i]) && t[i]
            != '/' && t[i] != ',' by {
            assert('a' <= t[i] <= 'z' || '0' <= t[i] <= '9' || t[i] == '-');
        }
    }
    if t == "semi-expanded"@ {
        reveal_strlit("semi-expanded");
        assert forall|i: int| 0 <= i < t.len() implies is_plain_char(#[trigger] t[i]) && t[i]
            != '/' && t[i] != ',' by {
            assert('a' <= t[i] <= 'z' || '0' <= t[i] <= '9' || t[i] == '-');
        }
    }
    if t == "extra-expanded"@ {
        reveal_strlit("extra-expanded");
        assert forall|i: int| 0 <= i < t.len() implies is_plain_char(#[trigger] t[i]) && t[i]
            != '/' && t[i] != ',' by {
            assert('a' <= t[i] <= 'z' || '0' <= t[i] <= '9' || t[i] == '-');
        }
    }
    if t == "ultra-expanded"@ {
        reveal_strlit("ultra-expanded");
        assert forall|i: int| 0 <= i < t.len() implies is_plain_char(#[trigger] t[i]) && t[i]
            != '/' && t[i] != ',' by {
            assert('a' <= t[i] <= 'z' || '0' <= t[i] <= '9' || t[i] == '-');
        }
    }
    if t == "xx-small"@ {
        reveal_strlit("xx-small");
        assert forall|i: int| 0 <= i < t.len() implies is_plain_char(#[trigger] t[i]) && t[i]
            != '/' && t[i] != ',' by {
            assert('a' <= t[i] <= 'z' || '0' <= t[i] <= '9' || t[i] == '-');
        }
    }
    if t == "x-small"@ {
        reveal_strlit("x-small");
        assert forall|i: int| 0 <= i < t.len() implies is_plain_char(#[trigger] t[i]) && t[i]
            != '/' && t[i] != ',' by {
            assert('a' <= t[i] <= 'z' || '0' <= t[i] <= '9' || t[i] == '-');
        }
    }
    if t == "small"@ {
        reveal_strlit("small");
        assert forall|i: int| 0 <= i < t.len() implies is_plain_char(#[trigger] t[i]) && t[i]
            != '/' && t[i] != ',' by {
            assert('a' <= t[i] <= 'z' || '0' <= t[i] <= '9' || t[i] == '-');
        }
    }
    if t == "medium"@ {
        reveal_strlit("medium");
        assert forall|i: int| 0 <= i < t.len() implies is_plain_char(#[trigger] t[i]) && t[i]
            != '/' && t[i] != ',' by {
            assert('a' <= t[i] <= 'z' || '0' <= t[i] <= '9' || t[i] == '-');
        }
    }
    if t == "large"@ {
        reveal_strlit("large");
        assert forall|i: int| 0 <= i < t.len() implies is_plain_char(#[trigger] t[i]) && t[i]
            != '/' && t[i] != ',' by {
            assert('a' <= t[i] <= 'z' || '0' <= t[i] <= '9' || t[i] == '-');
        }
    }
    if t == "x-large"@ {
        reveal_strlit("x-large");
        assert forall|i: int| 0 <= i < t.len() implies is_plain_char(#[trigger] t[i]) && t[i]
            != '/' && t[i] != ',' by {
            assert('a' <= t[i] <= 'z' || '0' <= t[i] <= '9' || t[i] == '-');
        }
    }
    if t == "xx-large"@ {
        reveal_strlit("xx-large");
        assert forall|i: int| 0 <= i < t.len() implies is_plain_char(#[trigger] t[i]) && t[i]
            != '/' && t[i] != ',' by {
            assert('a' <= t[i] <= 'z' || '0' <= t[i] <= '9' || t[i] == '-');
        }
    }
    if t == "larger"@ {
        reveal_strlit("larger");
        assert forall|i: int| 0 <= i < t.len() implies is_plain_char(#[trigger] t[i]) && t[i]
            != '/' && t[i] != ',' by {
            assert('a' <= t[i] <= 'z' || '0' <= t[i] <= '9' || t[i] == '-');
        }
    }
    if t == "smaller"@ {
        reveal_strlit("smaller");
        assert forall|i: int| 0 <= i < t.len() implies is_plain_char(#[trigger] t[i]) && t[i]
            != '/' && t[i] != ',' by {
            assert('a' <= t[i] <= 'z' || '0' <= t[i] <= '9' || t[i] == '-');
        }
    }}

/// Each of the nine CSS font-size keywords is a size: `k a,b` has the size
/// `k` and the family `a`, `b`, with every other property at its default.
pub proof fn lemma_size_keywords_are_sizes(k: Seq<char>, names: Seq<Seq<char>>)
    requires
        css_size_word(k),
        names.len() >= 1,
        forall|j: int| 0 <= j < names.len() ==> is_simple_name(#[trigger] names[j]),
    ensures
        parse_spec(k + " "@ + join_commas(names)) == Ok::<FontView, ParseError>(
            FontView::Shorthand(
                ShorthandView {
                    style: "normal"@,
                    variant: "normal"@,
                    weight: "normal"@,
                    stretch: "normal"@,
                    size: k,
                    line_height: LineHeightView::Normal,
                    family: names,
                },
            ),
        ),
{
    reveal_strlit(" ");
    lemma_css_words_plain(k);
    lemma_css_words_kinds(k);
    let t = join_commas(names);
    lemma_join_commas(names, true);
    let ts = seq![k, t];
    assert(ts.drop_last() =~= seq![k]);
    assert(join_with_spaces(seq![k]) == k);
    assert(ts.last() == t);
    assert(join_with_spaces(ts) == k + " "@ + t);
    lemma_read_as_tokens(ts, k + " "@ + t);
    lemma_finish_with_names(ts, 0, no_prefix(), names);
}

/// Each CSS style, weight and stretch keyword before the size fills its own
/// property: `w 12px a,b` has `w` as its style, weight or stretch, the
/// size `12px` and the family `a`, `b`, and every other property at its
/// default.
pub proof fn lemma_prefix_keywords_fill_their_property(
    w: Seq<char>,
    s: Seq<char>,
    names: Seq<Seq<char>>,
)
    requires
        css_style_word(w) || css_weight_word(w) || css_stretch_word(w),
        is_dimension(s),
        names.len() >= 1,
        forall|j: int| 0 <= j < names.len() ==> is_simple_name(#[trigger] names[j]),
    ensures
        parse_spec(w + " "@ + s + " "@ + join_commas(names)) == Ok::<FontView, ParseError>(
            FontView::Shorthand(
                ShorthandView {
                    style: if css_style_word(w) {
                        w
                    } else {
                        "normal"@
                    },
                    variant: "normal"@,
                    weight: if css_weight_word(w) {
                        w
                    } else {
                        "normal"@
                    },
                    stretch: if css_stretch_word(w) {
                        w
                    } else {
                        "normal"@
                    },
                    size: s,
                    line_height: LineHeightView::Normal,
                    family: names,
                },
            ),
        ),
{
    reveal_strlit(" ");
    reveal_css_words();
    lemma_css_words_plain(w);
    lemma_css_words_kinds(w);
    lemma_dimension_is_size(s);
    let t = join_commas(names);
    lemma_join_commas(names, true);
    let ts = seq![w, s, t];
    assert(ts.drop_last() =~= seq![w, s]);
    assert(seq![w, s].drop_last() =~= seq![w]);
    assert(join_with_spaces(seq![w]) == w);
    assert(join_with_spaces(seq![w, s]) == w + " "@ + s);
    assert(ts.last() == t);
    assert(join_with_spaces(ts) == w + " "@ + s + " "@ + t);
    lemma_read_as_tokens(ts, w + " "@ + s + " "@ + t);
    assert(is_prefix_token(w));
    let p1 = absorb(no_prefix(), w)->Ok_0;
    assert(absorb(no_prefix(), w) is Ok);
    lemma_finish_with_names(ts, 1, p1, names);
    assert(parse_tokens(ts, 0, no_prefix()) == parse_tokens(ts, 1, p1));
    assert(!is_prefix_token(ts[1]));
}

/// The three properties that a keyword before the size may fill.
pub enum Property {
    Style,
    Weight,
    Stretch,
}

/// The CSS keywords, other than `normal`, of a property.
pub open spec fn css_word(prop: Property, t: Seq<char>) -> bool {
    match prop {
        Property::Style => css_style_word(t),
        Property::Weight => css_weight_word(t),
        Property::Stretch => css_stretch_word(t),
    }
}

/// The error that reports a property given twice.
pub open spec fn given_twice(prop: Property) -> ParseError {
    match prop {
        Property::Style => ParseError::DuplicateStyle,
        Property::Weight => ParseError::DuplicateWeight,
        Property::Stretch => ParseError::DuplicateStretch,
    }
}

/// What has been gathered for a property.
spec fn field(p: Prefix, prop: Property) -> Seq<char> {
    match prop {
        Property::Style => p.style,
        Property::Weight => p.weight,
        Property::Stretch => p.stretch,
    }
}

/// `normal` or a CSS style, weight or stretch keyword.
pub open spec fn css_prefix_word(t: Seq<char>) -> bool {
    t == "normal"@ || css_style_word(t) || css_weight_word(t) || css_stretch_word(t)
}

/// Among the tokens from `k` to before `j`, at most one keyword of `q`, and
/// none where `q` is already filled.
spec fn fits_once(t: Seq<Seq<char>>, k: int, j: int, p: Prefix, q: Property) -> bool {
    &&& field(p, q).len() > 0 ==> forall|m: int| k <= m < j ==> !css_word(q, #[trigger] t[m])
    &&& forall|m1: int, m2: int|
        k <= m1 < j && k <= m2 < j && css_word(q, #[trigger] t[m1]) && css_word(q, #[trigger] t[m2])
            ==> m1 == m2
}

proof fn lemma_word_kind(t: Seq<char>, prop: Property)
    ensures
        css_word(prop, t) ==> t.len() > 0,
        css_word(prop, t) ==> kind_of(t) == match prop {
            Property::Style => TokenKind::Style,
            Property::Weight => TokenKind::Weight,
            Property::Stretch => TokenKind::Stretch,
        },
{
    reveal_css_words();
    lemma_css_words_kinds(t);
}

proof fn lemma_repeat_from(t: Seq<Seq<char>>, k: int, j: int, p: Prefix, prop: Property)
    requires
        0 <= k <= j < t.len(),
        forall|m: int| k <= m <= j ==> css_prefix_word(#[trigger] t[m]),
        css_word(prop, t[j]),
        field(p, prop).len() > 0 || exists|i: int| k <= i < j && css_word(prop, #[trigger] t[i]),
        prop != Property::Style ==> fits_once(t, k, j, p, Property::Style),
        prop != Property::Weight ==> fits_once(t, k, j, p, Property::Weight),
        prop != Property::Stretch ==> fits_once(t, k, j, p, Property::Stretch),
    ensures
        parse_tokens(t, k, p) == Err::<FontView, ParseError>(given_twice(prop)),
    decreases j - k,
{
    let x = t[k];
    assert(css_prefix_word(x));
    lemma_css_words_kinds(x);
    lemma_word_kind(x, Property::Style);
    lemma_word_kind(x, Property::Weight);
    lemma_word_kind(x, Property::Stretch);
    lemma_word_kind(t[j], prop);
    assert(is_prefix_token(x));
    if k == j {
        assert(field(p, prop).len() > 0);
    } else {
        if !(field(p, prop).len() > 0) {
            let i = choose|i: int| k <= i < j && css_word(prop, #[trigger] t[i]);
            lemma_word_kind(t[i], prop);
        }
        match absorb(p, x) {
            Ok(p2) => {
                assert forall|q: Property| q != prop && #[trigger] fits_once(t, k, j, p, q) implies fits_once(t, k + 1, j, p2, q) by {
                    if css_word(q, x) {
                        assert(field(p, q).len() == 0);
                    }
                }
                if prop != Property::Style {
                    assert(fits_once(t, k, j, p, Property::Style));
                }
                if prop != Property::Weight {
                    assert(fits_once(t, k, j, p, Property::Weight));
                }
                if prop != Property::Stretch {
                    assert(fits_once(t, k, j, p, Property::Stretch));
                }
                lemma_repeat_from(t, k + 1, j, p2, prop);
            },
            Err(e) => {},
        }
    }
}

/// A property may be given at most once: when two keywords of the same
/// property, equal or not, stand before the size, and neither other
/// property is given twice before the second of them, parsing fails with
/// that property given twice.
pub proof fn lemma_repeated_property_refused(t: Seq<Seq<char>>, i: int, j: int, prop: Property)
    requires
        0 <= i < j < t.len(),
        forall|m: int| 0 <= m <= j ==> css_prefix_word(#[trigger] t[m]),
        css_word(prop, t[i]),
        css_word(prop, t[j]),
        forall|q: Property, m1: int, m2: int|
            q != prop && 0 <= m1 < j && 0 <= m2 < j && #[trigger] css_word(q, t[m1])
                && #[trigger] css_word(q, t[m2]) ==> m1 == m2,
    ensures
        parse_tokens(t, 0, no_prefix()) == Err::<FontView, ParseError>(given_twice(prop)),
{
    assert(forall|q: Property| q != prop ==> #[trigger] fits_once(t, 0, j, no_prefix(), q));
    if prop != Property::Style {
        assert(fits_once(t, 0, j, no_prefix(), Property::Style));
    }
    if prop != Property::Weight {
        assert(fits_once(t, 0, j, no_prefix(), Property::Weight));
    }
    if prop != Property::Stretch {
        assert(fits_once(t, 0, j, no_prefix(), Property::Stretch));
    }
    lemma_repeat_from(t, 0, j, no_prefix(), prop);
}

/// The same in the text of a value: the keywords and any plain tokens after
/// them, joined by spaces.
pub proof fn lemma_repeated_property_refused_in_text(
    t: Seq<Seq<char>>,
    i: int,
    j: int,
    prop: Property,
)
    requires
        0 <= i < j < t.len(),
        forall|m: int| 0 <= m < t.len() ==> is_plain_token(#[trigger] t[m]),
        forall|m: int| 0 <= m <= j ==> css_prefix_word(#[trigger] t[m]),
        css_word(prop, t[i]),
        css_word(prop, t[j]),
        forall|q: Property, m1: int, m2: int|
            q != prop && 0 <= m1 < j && 0 <= m2 < j && #[trigger] css_word(q, t[m1])
                && #[trigger] css_word(q, t[m2]) ==> m1 == m2,
    ensures
        parse_spec(join_with_spaces(t)) == Err::<FontView, ParseError>(given_twice(prop)),
{
    lemma_read_as_tokens(t, join_with_spaces(t));
    lemma_repeated_property_refused(t, i, j, prop);
}

/// The line-height after the size is read the same whether it is written
/// `size/line-height` or `size / line-height`; it is `normal` exactly when
/// its text is `normal`, and its text is the text given.
pub proof fn lemma_line_height_after_size(s: Seq<char>, v: Seq<char>, names: Seq<Seq<char>>)
    requires
        is_dimension(s),
        is_simple_name(v),
        names.len() >= 1,
        forall|k: int| 0 <= k < names.len() ==> is_simple_name(#[trigger] names[k]),
    ensures
        parse_spec(s + "/"@ + v + " "@ + join_commas(names)) == parse_spec(
            s + " "@ + "/"@ + " "@ + v + " "@ + join_commas(names),
        ),
        parse_spec(s + "/"@ + v + " "@ + join_commas(names)) matches Ok(
            FontView::Shorthand(sh),
        ) && sh.style == "normal"@ && sh.variant == "normal"@ && sh.weight == "normal"@
            && sh.stretch == "normal"@ && sh.size == s && sh.family == names && line_height_text(
            sh.line_height,
        ) == v && ((sh.line_height is Normal) <==> v == "normal"@),
{
    reveal_strlit("/");
    reveal_strlit(" ");
    reveal_css_words();
    let t = join_commas(names);
    lemma_join_commas(names, true);
    lemma_split_unbroken(s, Separator::Slash, false);
    lemma_split_unbroken(v, Separator::Slash, false);
    lemma_line_height_keeps_text(v);
    let slash = "/"@;
    assert(slash =~= seq!['/']);
    // The one-token form.
    let x = s + slash + v;
    lemma_split_concat(s, '/', v, Separator::Slash, false);
    assert(split_spec(x, Separator::Slash, false) =~= seq![s, v]);
    assert forall|k: int| 0 <= k < x.len() implies is_plain_char(#[trigger] x[k]) by {
        if k < s.len() {
            assert(x[k] == s[k]);
        } else if k == s.len() {
            assert(x[k] == '/');
        } else {
            assert(x[k] == v[k - s.len() - 1]);
        }
    }
    assert(x.len() >= 4);
    assert(x[0] == s[0]);
    assert(!is_prefix_token(x));
    let ts1 = seq![x, t];
    assert(ts1.drop_last() =~= seq![x]);
    assert(join_with_spaces(seq![x]) == x);
    assert(ts1.last() == t);
    assert(join_with_spaces(ts1) == s + "/"@ + v + " "@ + t);
    lemma_read_as_tokens(ts1, s + "/"@ + v + " "@ + t);
    lemma_family_of_names(ts1, 1, names);
    // The form with a standalone slash.
    let ts2 = seq![s, slash, v, t];
    assert(ts2.drop_last() =~= seq![s, slash, v]);
    assert(seq![s, slash, v].drop_last() =~= seq![s, slash]);
    assert(seq![s, slash].drop_last() =~= seq![s]);
    assert(join_with_spaces(seq![s]) == s);
    assert(join_with_spaces(seq![s, slash]) == s + " "@ + slash);
    assert(join_with_spaces(seq![s, slash, v]) == s + " "@ + slash + " "@ + v);
    assert(join_with_spaces(ts2) == s + " "@ + "/"@ + " "@ + v + " "@ + t);
    assert(is_plain_char(slash[0]));
    lemma_read_as_tokens(ts2, s + " "@ + "/"@ + " "@ + v + " "@ + t);
    lemma_dimension_is_size(s);
    lemma_family_of_names(ts2, 3, names);
    assert(ts2[1] == "/"@);
}

/// Only the empty value is refused as empty.
proof fn lemma_tokens_never_empty_error(tokens: Seq<Seq<char>>, i: int, p: Prefix)
    ensures
        parse_tokens(tokens, i, p) != Err::<FontView, ParseError>(ParseError::EmptyString),
    decreases tokens.len() - i,
{
    if 0 <= i < tokens.len() {
        match absorb(p, tokens[i]) {
            Ok(p2) => lemma_tokens_never_empty_error(tokens, i + 1, p2),
            Err(_) => {},
        }
    }
}

/// A value is refused as empty exactly when it is the empty string.
pub proof fn lemma_empty_error_exactly_when_empty(v: Seq<char>)
    ensures
        parse_spec(v) == Err::<FontView, ParseError>(ParseError::EmptyString) <==> v.len() == 0,
{
    lemma_tokens_never_empty_error(tokens_of(v), 0, no_prefix());
}

/// Stripping quotes takes one `"` or `'` off each end where there is one,
/// and leaves a value that neither starts nor ends with a quote unchanged.
pub proof fn lemma_unquote_strips_one_each_side(s: Seq<char>)
    ensures
        s.len() >= 2 && (s[0] == '"' || s[0] == '\'') && (s.last() == '"' || s.last() == '\'')
            ==> unquoted(s) == s.subrange(1, s.len() - 1),
        s.len() >= 1 && (s[0] == '"' || s[0] == '\'') && !(s.last() == '"' || s.last() == '\'')
            ==> unquoted(s) == s.subrange(1, s.len() as int),
        s.len() >= 1 && !(s[0] == '"' || s[0] == '\'') && (s.last() == '"' || s.last() == '\'')
            ==> unquoted(s) == s.subrange(0, s.len() - 1),
        (s.len() == 0 || !(s[0] == '"' || s[0] == '\'') && !(s.last() == '"' || s.last() == '\''))
            ==> unquoted(s) == s,
{
    if s.len() >= 2 {
        assert(s.drop_first().last() == s.last());
        assert(s.drop_first().drop_last() =~= s.subrange(1, s.len() - 1));
        assert(s.drop_first() =~= s.subrange(1, s.len() as int));
        assert(s.drop_last() =~= s.subrange(0, s.len() - 1));
    } else if s.len() == 1 {
        assert(s.drop_first() =~= s.subrange(1, s.len() as int));
        assert(s.drop_last() =~= s.subrange(0, s.len() - 1));
    }
}

/// A word before the size that is no CSS keyword and no size: it starts
/// with a lowercase letter, and holds no comma or slash.
pub open spec fn is_variant_word(u: Seq<char>) -> bool {
    &&& is_simple_name(u)
    &&& 'a' <= u[0] <= 'z'
    &&& !css_prefix_word(u)
    &&& !css_size_word(u)
}

/// Words before the size that no other property claims make up the
/// variant, in order and separated by single spaces: `a b 12px x` has the
/// variant `a b`.
pub proof fn lemma_variant_gathers_words(
    u1: Seq<char>,
    u2: Seq<char>,
    s: Seq<char>,
    names: Seq<Seq<char>>,
)
    requires
        is_variant_word(u1),
        is_variant_word(u2),
        is_dimension(s),
        names.len() >= 1,
        forall|k: int| 0 <= k < names.len() ==> is_simple_name(#[trigger] names[k]),
    ensures
        parse_spec(u1 + " "@ + u2 + " "@ + s + " "@ + join_commas(names))
            == Ok::<FontView, ParseError>(
            FontView::Shorthand(
                ShorthandView {
                    style: "normal"@,
                    variant: u1 + " "@ + u2,
                    weight: "normal"@,
                    stretch: "normal"@,
                    size: s,
                    line_height: LineHeightView::Normal,
                    family: names,
                },
            ),
        ),
{
    reveal_strlit(" ");
    let t = join_commas(names);
    lemma_join_commas(names, true);
    lemma_dimension_is_size(s);
    assert(u1.len() > 0 && u2.len() > 0);
    assert(!u1.contains('/') && !u2.contains('/'));
    let ts = seq![u1, u2, s, t];
    assert(ts.drop_last() =~= seq![u1, u2, s]);
    assert(seq![u1, u2, s].drop_last() =~= seq![u1, u2]);
    assert(seq![u1, u2].drop_last() =~= seq![u1]);
    assert(join_with_spaces(seq![u1]) == u1);
    assert(join_with_spaces(seq![u1, u2]) == u1 + " "@ + u2);
    assert(join_with_spaces(seq![u1, u2, s]) == u1 + " "@ + u2 + " "@ + s);
    assert(join_with_spaces(ts) == u1 + " "@ + u2 + " "@ + s + " "@ + t);
    lemma_read_as_tokens(ts, u1 + " "@ + u2 + " "@ + s + " "@ + t);
    assert(is_prefix_token(u1) && is_prefix_token(u2));
    let p1 = absorb(no_prefix(), u1)->Ok_0;
    let p2 = absorb(p1, u2)->Ok_0;
    assert(p2.variant == u1 + " "@ + u2);
    lemma_finish_with_names(ts, 2, p2, names);
    assert(parse_tokens(ts, 0, no_prefix()) == parse_tokens(ts, 1, p1));
    assert(parse_tokens(ts, 1, p1) == parse_tokens(ts, 2, p2));
    assert(!is_prefix_token(ts[2]));
}

/// The six CSS system-font keywords, each parsed to its own system font.
pub proof fn lemma_css_system_keywords()
    ensures
        parse_spec("caption"@) == Ok::<FontView, ParseError>(FontView::System(SystemFont::Caption)),
        parse_spec("icon"@) == Ok::<FontView, ParseError>(FontView::System(SystemFont::Icon)),
        parse_spec("menu"@) == Ok::<FontView, ParseError>(FontView::System(SystemFont::Menu)),
        parse_spec("message-box"@) == Ok::<FontView, ParseError>(
            FontView::System(SystemFont::MessageBox),
        ),
        parse_spec("small-caption"@) == Ok::<FontView, ParseError>(
            FontView::System(SystemFont::SmallCaption),
        ),
        parse_spec("status-bar"@) == Ok::<FontView, ParseError>(
            FontView::System(SystemFont::StatusBar),
        ),
{
    reveal_strlit("caption");
    reveal_strlit("icon");
    reveal_strlit("menu");
    reveal_strlit("message-box");
    reveal_strlit("small-caption");
    reveal_strlit("status-bar");
    assert("icon"@[0] != "caption"@[0]);
    assert("menu"@[0] != "caption"@[0] && "menu"@[0] != "icon"@[0]);
    assert("message-box"@.len() != "caption"@.len() && "message-box"@.len() != "icon"@.len()
        && "message-box"@.len() != "menu"@.len());
    assert("small-caption"@.len() != "caption"@.len() && "small-caption"@.len() != "icon"@.len()
        && "small-caption"@.len() != "menu"@.len() && "small-caption"@.len()
        != "message-box"@.len());
    assert("status-bar"@.len() != "caption"@.len() && "status-bar"@.len() != "icon"@.len()
        && "status-bar"@.len() != "menu"@.len() && "status-bar"@.len() != "message-box"@.len()
        && "status-bar"@.len() != "small-caption"@.len());
}

} // verus!
