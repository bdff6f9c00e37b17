//! Properties of parsing that hold of every input.

use vstd::prelude::*;

use crate::font::{
    is_stretch_keyword, is_style_keyword, is_weight_keyword, or_normal_spec, system_font_of,
    system_keyword, FontView, ParseError, ShorthandView, SystemFont,
};
use crate::parse::{
    absorb, finish_at_size, is_prefix_token, join_with_spaces, line_height_and_next, no_prefix,
    parse_spec, parse_tokens, tokens_of, Prefix,
};
use crate::split::{lemma_split_parts_trimmed, outside, scan, split_spec, Separator};

verus! {

/// Reading tokens never gives a system font.
proof fn lemma_tokens_give_shorthand(tokens: Seq<Seq<char>>, i: int, p: Prefix)
    ensures
        !(parse_tokens(tokens, i, p) matches Ok(FontView::System(_))),
    decreases tokens.len() - i,
{
    if 0 <= i < tokens.len() {
        match absorb(p, tokens[i]) {
            Ok(p2) => lemma_tokens_give_shorthand(tokens, i + 1, p2),
            Err(_) => {},
        }
    }
}

/// A value parses to a system font exactly when it is that font's keyword,
/// character for character; so the keyword of every system font parses back
/// to that font.
pub proof fn lemma_system_font_exact(v: Seq<char>, f: SystemFont)
    ensures
        parse_spec(v) == Ok::<FontView, ParseError>(FontView::System(f)) <==> v == system_keyword(f),
{
    reveal_strlit("caption");
    reveal_strlit("icon");
    reveal_strlit("menu");
    reveal_strlit("message-box");
    reveal_strlit("small-caption");
    reveal_strlit("status-bar");
    if v.len() > 0 && system_font_of(v) is None {
        lemma_tokens_give_shorthand(tokens_of(v), 0, no_prefix());
    }
}

/// Every property gathered so far is empty or a keyword of its kind.
spec fn prefix_ok(p: Prefix) -> bool {
    &&& p.style.len() == 0 || is_style_keyword(p.style)
    &&& p.weight.len() == 0 || is_weight_keyword(p.weight)
    &&& p.stretch.len() == 0 || is_stretch_keyword(p.stretch)
}

/// What a parsed shorthand always holds: each of style, weight and stretch is
/// a keyword of its kind (`normal` where none was given), the variant is not
/// empty, and there is at least one family entry.
pub open spec fn well_formed_shorthand(sh: ShorthandView) -> bool {
    &&& is_style_keyword(sh.style)
    &&& is_weight_keyword(sh.weight)
    &&& is_stretch_keyword(sh.stretch)
    &&& sh.variant.len() > 0
    &&& sh.family.len() >= 1
}

proof fn lemma_tokens_well_formed(tokens: Seq<Seq<char>>, i: int, p: Prefix)
    requires
        prefix_ok(p),
    ensures
        parse_tokens(tokens, i, p) matches Ok(FontView::Shorthand(sh))
            ==> well_formed_shorthand(sh),
    decreases tokens.len() - i,
{
    reveal_strlit("normal");
    if 0 <= i < tokens.len() {
        if is_prefix_token(tokens[i]) {
            match absorb(p, tokens[i]) {
                Ok(p2) => lemma_tokens_well_formed(tokens, i + 1, p2),
                Err(_) => {},
            }
        } else {
            let parts = split_spec(tokens[i], Separator::Slash, false);
            if parts.len() > 0 {
                let (_, next) = line_height_and_next(tokens, i, parts);
                if next < tokens.len() {
                    let joined = join_with_spaces(tokens.subrange(next, tokens.len() as int));
                    lemma_split_parts_trimmed(joined, Separator::Comma, true);
                    assert(or_normal_spec(p.variant).len() > 0);
                }
            }
        }
    }
}

/// Whatever a shorthand parses to holds the defaults that the CSS `font`
/// shorthand promises: see [`well_formed_shorthand`].
pub proof fn lemma_shorthand_well_formed(v: Seq<char>)
    ensures
        parse_spec(v) matches Ok(FontView::Shorthand(sh)) ==> well_formed_shorthand(sh),
{
    if v.len() > 0 && system_font_of(v) is None {
        reveal_strlit("normal");
        lemma_tokens_well_formed(tokens_of(v), 0, no_prefix());
    }
}

/// Whether an error reports a property given twice.
pub open spec fn is_duplicate(e: ParseError) -> bool {
    ||| e == ParseError::DuplicateStyle
    ||| e == ParseError::DuplicateWeight
    ||| e == ParseError::DuplicateStretch
}

/// Whether a result is an error that reports a property given twice.
pub open spec fn is_duplicate_result(r: Result<FontView, ParseError>) -> bool {
    r matches Err(e) && is_duplicate(e)
}

/// `tokens` with the tokens at `i` and `i + 1` swapped.
pub open spec fn swap_adjacent(tokens: Seq<Seq<char>>, i: int) -> Seq<Seq<char>> {
    tokens.update(i, tokens[i + 1]).update(i + 1, tokens[i])
}

/// Whether absorbing `t` adds to the variant (it is no keyword of another
/// property and not `normal`).
pub open spec fn joins_variant(t: Seq<char>) -> bool {
    &&& t != "normal"@
    &&& !is_style_keyword(t)
    &&& !is_weight_keyword(t)
    &&& !is_stretch_keyword(t)
}

/// No style, weight or stretch keyword is empty.
pub proof fn lemma_keywords_not_empty(t: Seq<char>)
    ensures
        is_style_keyword(t) || is_weight_keyword(t) || is_stretch_keyword(t) ==> t.len() > 0,
{
    reveal_strlit("normal");
    reveal_strlit("italic");
    reveal_strlit("oblique");
    reveal_strlit("bold");
    reveal_strlit("bolder");
    reveal_strlit("lighter");
    reveal_strlit("100");
    reveal_strlit("200");
    reveal_strlit("300");
    reveal_strlit("400");
    reveal_strlit("500");
    reveal_strlit("600");
    reveal_strlit("700");
    reveal_strlit("800");
    reveal_strlit("900");
    reveal_strlit("condensed");
    reveal_strlit("semi-condensed");
    reveal_strlit("extra-condensed");
    reveal_strlit("ultra-condensed");
    reveal_strlit("expanded");
    reveal_strlit("semi-expanded");
    reveal_strlit("extra-expanded");
    reveal_strlit("ultra-expanded");
}

/// Two prefix tokens of which at most one joins the variant can be absorbed
/// in either order with the same outcome, when the first order succeeds.
pub proof fn lemma_absorb_commutes(p: Prefix, a: Seq<char>, b: Seq<char>)
    requires
        !(joins_variant(a) && joins_variant(b)),
        absorb(p, a) is Ok,
        absorb(absorb(p, a)->Ok_0, b) is Ok,
    ensures
        absorb(p, b) is Ok,
        absorb(absorb(p, b)->Ok_0, a) == absorb(absorb(p, a)->Ok_0, b),
{
    lemma_keywords_not_empty(a);
    lemma_keywords_not_empty(b);
}

/// Reading from `k` on looks only at the tokens from `k` on.
pub proof fn lemma_tokens_from(t: Seq<Seq<char>>, u: Seq<Seq<char>>, k: int, p: Prefix)
    requires
        t.len() == u.len(),
        0 <= k,
        forall|j: int| k <= j < t.len() ==> t[j] == u[j],
    ensures
        parse_tokens(t, k, p) == parse_tokens(u, k, p),
    decreases t.len() - k,
{
    if k < t.len() {
        match absorb(p, t[k]) {
            Ok(p2) => lemma_tokens_from(t, u, k + 1, p2),
            Err(_) => {},
        }
        let parts = split_spec(t[k], Separator::Slash, false);
        let (_, next) = line_height_and_next(t, k, parts);
        if k <= next <= t.len() {
            assert(t.subrange(next, t.len() as int) =~= u.subrange(next, u.len() as int));
        }
        assert(finish_at_size(t, k, p) == finish_at_size(u, k, p));
    }
}

proof fn lemma_swap_from(t: Seq<Seq<char>>, i: int, k: int, p: Prefix)
    requires
        0 <= k <= i,
        i + 1 < t.len(),
        forall|j: int| k <= j <= i + 1 ==> is_prefix_token(#[trigger] t[j]),
        !(joins_variant(t[i]) && joins_variant(t[i + 1])),
        !is_duplicate_result(parse_tokens(t, k, p)),
    ensures
        parse_tokens(swap_adjacent(t, i), k, p) == parse_tokens(t, k, p),
    decreases i - k,
{
    let u = swap_adjacent(t, i);
    assert(is_prefix_token(t[k]));
    if k < i {
        assert(u[k] == t[k]);
        match absorb(p, t[k]) {
            Ok(p2) => lemma_swap_from(t, i, k + 1, p2),
            Err(_) => {},
        }
    } else {
        assert(is_prefix_token(t[i + 1]));
        let a = t[i];
        let b = t[i + 1];
        assert(u[i] == b && u[i + 1] == a);
        if absorb(p, a) is Ok {
            let p1 = absorb(p, a)->Ok_0;
            if absorb(p1, b) is Ok {
                lemma_absorb_commutes(p, a, b);
                let p2 = absorb(p1, b)->Ok_0;
                let q1 = absorb(p, b)->Ok_0;
                lemma_tokens_from(t, u, i + 2, p2);
                assert(parse_tokens(t, i + 1, p1) == parse_tokens(t, i + 2, p2));
                assert(parse_tokens(u, i + 1, q1) == parse_tokens(u, i + 2, p2));
                assert(parse_tokens(u, i, p) == parse_tokens(u, i + 1, q1));
            }
        }
    }
}

/// The properties before the size may come in any order: swapping two
/// adjacent tokens before the size, of which at most one joins the variant,
/// leaves the result unchanged, unless that result reports a property given
/// twice (then which property is named first may change).
pub proof fn lemma_prefix_order_free(tokens: Seq<Seq<char>>, i: int)
    requires
        0 <= i,
        i + 1 < tokens.len(),
        forall|j: int| 0 <= j <= i + 1 ==> is_prefix_token(#[trigger] tokens[j]),
        !(joins_variant(tokens[i]) && joins_variant(tokens[i + 1])),
        !is_duplicate_result(parse_tokens(tokens, 0, no_prefix())),
    ensures
        parse_tokens(swap_adjacent(tokens, i), 0, no_prefix()) == parse_tokens(tokens, 0, no_prefix()),
{
    lemma_swap_from(tokens, i, 0, no_prefix());
}

/// A sequence made of slashes alone.
pub open spec fn all_slashes(s: Seq<char>) -> bool {
    forall|k: int| 0 <= k < s.len() ==> s[k] == '/'
}

proof fn lemma_scan_slashes(s: Seq<char>, n: int)
    requires
        0 <= n <= s.len(),
    ensures
        ({
            let sc = scan(s, Separator::Slash, n);
            &&& (forall|k: int| 0 <= k < n ==> s[k] == '/') ==> sc.parts.len() == 0 && sc.start
                == n && sc.nesting == outside()
            &&& sc.parts.len() == 0 ==> (forall|k: int| 0 <= k < sc.start ==> s[k] == '/')
            &&& 0 <= sc.start <= n
        }),
    decreases n,
{
    if n > 0 {
        lemma_scan_slashes(s, n - 1);
    }
}

/// Splitting on `/` gives no part at all exactly when the value is made of
/// slashes alone.
pub proof fn lemma_slash_split_empty(s: Seq<char>)
    ensures
        split_spec(s, Separator::Slash, false).len() == 0 <==> all_slashes(s),
{
    lemma_scan_slashes(s, s.len() as int);
}

/// Without a token that can be the size, parsing fails: with the size
/// missing, or with a property given twice. A token made of slashes alone
/// counts as no size.
proof fn lemma_prefix_only_fails(tokens: Seq<Seq<char>>, i: int, p: Prefix)
    requires
        0 <= i,
        forall|j: int|
            i <= j < tokens.len() ==> is_prefix_token(#[trigger] tokens[j]) || all_slashes(
                tokens[j],
            ),
    ensures
        parse_tokens(tokens, i, p) matches Err(e) && (e == ParseError::MissingFontSize
            || is_duplicate(e)),
    decreases tokens.len() - i,
{
    if i < tokens.len() {
        assert(is_prefix_token(tokens[i]) || all_slashes(tokens[i]));
        if is_prefix_token(tokens[i]) {
            match absorb(p, tokens[i]) {
                Ok(p2) => lemma_prefix_only_fails(tokens, i + 1, p2),
                Err(_) => {},
            }
        } else {
            lemma_slash_split_empty(tokens[i]);
        }
    }
}

/// The font-size is required: a value none of whose tokens can be a size
/// (a token of slashes alone has no size part) is refused, with the size
/// missing or with a property given twice.
pub proof fn lemma_size_required(v: Seq<char>)
    requires
        v.len() > 0,
        system_font_of(v) is None,
        forall|j: int|
            0 <= j < tokens_of(v).len() ==> is_prefix_token(#[trigger] tokens_of(v)[j])
                || all_slashes(tokens_of(v)[j]),
    ensures
        parse_spec(v) matches Err(e) && (e == ParseError::MissingFontSize || is_duplicate(e)),
{
    lemma_prefix_only_fails(tokens_of(v), 0, no_prefix());
}

proof fn lemma_family_missing_from(tokens: Seq<Seq<char>>, i: int, p: Prefix)
    requires
        0 <= i < tokens.len(),
        forall|j: int| i <= j < tokens.len() - 1 ==> is_prefix_token(#[trigger] tokens[j]),
        !is_prefix_token(tokens.last()),
        !all_slashes(tokens.last()),
    ensures
        parse_tokens(tokens, i, p) == Err::<FontView, ParseError>(ParseError::MissingFontFamily)
            || is_duplicate_result(parse_tokens(tokens, i, p)),
    decreases tokens.len() - i,
{
    if i < tokens.len() - 1 {
        assert(is_prefix_token(tokens[i]));
        match absorb(p, tokens[i]) {
            Ok(p2) => lemma_family_missing_from(tokens, i + 1, p2),
            Err(_) => {},
        }
    } else {
        lemma_slash_split_empty(tokens[i]);
    }
}

/// The font-family is required: when the size is the last token, the value is
/// refused with the family missing (or with a property given twice before it).
pub proof fn lemma_family_required(v: Seq<char>)
    requires
        v.len() > 0,
        system_font_of(v) is None,
        tokens_of(v).len() > 0,
        forall|j: int|
            0 <= j < tokens_of(v).len() - 1 ==> is_prefix_token(#[trigger] tokens_of(v)[j]),
        !is_prefix_token(tokens_of(v).last()),
        !all_slashes(tokens_of(v).last()),
    ensures
        parse_spec(v) == Err::<FontView, ParseError>(ParseError::MissingFontFamily)
            || is_duplicate_result(parse_spec(v)),
{
    lemma_family_missing_from(tokens_of(v), 0, no_prefix());
}

} // verus!
