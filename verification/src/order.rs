//! The properties before the size may come in any order: a law over whole
//! permutations of the tokens before the size.

use vstd::prelude::*;

use crate::font::{
    is_size_token, is_stretch_keyword, is_style_keyword, is_weight_keyword, system_font_of,
};
use crate::laws::lemma_tokens_from;
use crate::parse::{
    absorb, join_with_spaces, no_prefix, parse_spec, parse_tokens, tokens_of, Prefix,
};
use crate::split::{
    is_plain_char, is_plain_token, lemma_split_concat, lemma_split_unbroken, outside, scan,
    Separator,
};

verus! {

broadcast use vstd::seq_lib::group_to_multiset_ensures;

/// What a token is to the shorthand, tested in the order parsing tests it.
pub enum TokenKind {
    Normal,
    Style,
    Weight,
    Stretch,
    Variant,
    Size,
}

/// The kind of a token.
pub open spec fn kind_of(t: Seq<char>) -> TokenKind {
    if t == "normal"@ {
        TokenKind::Normal
    } else if is_style_keyword(t) {
        TokenKind::Style
    } else if is_weight_keyword(t) {
        TokenKind::Weight
    } else if is_stretch_keyword(t) {
        TokenKind::Stretch
    } else if !is_size_token(t) {
        TokenKind::Variant
    } else {
        TokenKind::Size
    }
}

/// How many tokens of `s` are of kind `k`.
pub open spec fn count_kind(s: Seq<Seq<char>>, k: TokenKind) -> nat
    decreases s.len(),
{
    if s.len() == 0 {
        0
    } else {
        count_kind(s.drop_last(), k) + if kind_of(s.last()) == k {
            1nat
        } else {
            0nat
        }
    }
}

/// Tokens that may all stand before the size and fill each property at most
/// once: at most one style, weight, stretch and variant token each, any
/// number of `normal`, and no size.
pub open spec fn distinct_kinds(s: Seq<Seq<char>>) -> bool {
    &&& count_kind(s, TokenKind::Style) <= 1
    &&& count_kind(s, TokenKind::Weight) <= 1
    &&& count_kind(s, TokenKind::Stretch) <= 1
    &&& count_kind(s, TokenKind::Variant) <= 1
    &&& count_kind(s, TokenKind::Size) == 0
}

/// The token of kind `k` in `s`, or nothing.
pub open spec fn token_of_kind(s: Seq<Seq<char>>, k: TokenKind) -> Seq<char> {
    if exists|i: int| 0 <= i < s.len() && kind_of(s[i]) == k {
        s[choose|i: int| 0 <= i < s.len() && kind_of(s[i]) == k]
    } else {
        Seq::empty()
    }
}

/// The properties that the tokens of `s` fill.
pub open spec fn prefix_of(s: Seq<Seq<char>>) -> Prefix {
    Prefix {
        style: token_of_kind(s, TokenKind::Style),
        variant: token_of_kind(s, TokenKind::Variant),
        weight: token_of_kind(s, TokenKind::Weight),
        stretch: token_of_kind(s, TokenKind::Stretch),
    }
}

proof fn lemma_count_remove(s: Seq<Seq<char>>, i: int, k: TokenKind)
    requires
        0 <= i < s.len(),
    ensures
        count_kind(s, k) == count_kind(s.remove(i), k) + if kind_of(s[i]) == k {
            1nat
        } else {
            0nat
        },
    decreases s.len(),
{
    if i == s.len() - 1 {
        assert(s.remove(i) =~= s.drop_last());
    } else {
        lemma_count_remove(s.drop_last(), i, k);
        assert(s.remove(i).drop_last() =~= s.drop_last().remove(i));
        assert(s.remove(i).last() == s.last());
    }
}

proof fn lemma_count_two(s: Seq<Seq<char>>, i: int, j: int, k: TokenKind)
    requires
        0 <= i < s.len(),
        0 <= j < s.len(),
        i != j,
        kind_of(s[i]) == k,
        kind_of(s[j]) == k,
    ensures
        count_kind(s, k) >= 2,
{
    lemma_count_remove(s, i, k);
    let r = s.remove(i);
    let j2 = if j < i {
        j
    } else {
        j - 1
    };
    assert(r[j2] == s[j]);
    lemma_count_remove(r, j2, k);
}

/// With at most one token of a kind, that token is the one found.
proof fn lemma_unique_token(s: Seq<Seq<char>>, i: int, k: TokenKind)
    requires
        0 <= i < s.len(),
        kind_of(s[i]) == k,
        count_kind(s, k) <= 1,
    ensures
        token_of_kind(s, k) == s[i],
{
    let c = choose|c: int| 0 <= c < s.len() && kind_of(s[c]) == k;
    if c != i {
        lemma_count_two(s, i, c, k);
    }
}

proof fn lemma_count_multiset(s: Seq<Seq<char>>, u: Seq<Seq<char>>, k: TokenKind)
    requires
        s.to_multiset() == u.to_multiset(),
    ensures
        count_kind(s, k) == count_kind(u, k),
    decreases s.len(),
{
    if s.len() == 0 {
        s.to_multiset_ensures();
        u.to_multiset_ensures();
        assert(u.to_multiset().len() == 0);
    } else {
        let x = s.last();
        let n = s.len() - 1;
        s.to_multiset_ensures();
        u.to_multiset_ensures();
        assert(s.remove(n) =~= s.drop_last());
        assert(s.contains(x));
        assert(s.to_multiset().count(x) > 0);
        assert(u.contains(x));
        let j = choose|j: int| 0 <= j < u.len() && u[j] == x;
        assert(s.drop_last().to_multiset() == u.remove(j).to_multiset());
        lemma_count_multiset(s.drop_last(), u.remove(j), k);
        lemma_count_remove(u, j, k);
    }
}

proof fn lemma_count_prefix(s: Seq<Seq<char>>, a: int, b: int, k: TokenKind)
    requires
        0 <= a <= b <= s.len(),
    ensures
        count_kind(s.subrange(0, a), k) <= count_kind(s.subrange(0, b), k),
    decreases b - a,
{
    if a < b {
        lemma_count_prefix(s, a, b - 1, k);
        assert(s.subrange(0, b).drop_last() =~= s.subrange(0, b - 1));
    }
}

/// Two orders of the same tokens fill the same properties.
proof fn lemma_prefix_of_permutation(s: Seq<Seq<char>>, u: Seq<Seq<char>>)
    requires
        s.to_multiset() == u.to_multiset(),
        distinct_kinds(s),
    ensures
        distinct_kinds(u),
        prefix_of(u) == prefix_of(s),
{
    lemma_count_multiset(s, u, TokenKind::Style);
    lemma_count_multiset(s, u, TokenKind::Weight);
    lemma_count_multiset(s, u, TokenKind::Stretch);
    lemma_count_multiset(s, u, TokenKind::Variant);
    lemma_count_multiset(s, u, TokenKind::Size);
    lemma_same_token(s, u, TokenKind::Style);
    lemma_same_token(s, u, TokenKind::Weight);
    lemma_same_token(s, u, TokenKind::Stretch);
    lemma_same_token(s, u, TokenKind::Variant);
}

proof fn lemma_same_token(s: Seq<Seq<char>>, u: Seq<Seq<char>>, k: TokenKind)
    requires
        s.to_multiset() == u.to_multiset(),
        count_kind(s, k) <= 1,
        count_kind(u, k) <= 1,
    ensures
        token_of_kind(u, k) == token_of_kind(s, k),
{
    if exists|i: int| 0 <= i < s.len() && kind_of(s[i]) == k {
        let i = choose|i: int| 0 <= i < s.len() && kind_of(s[i]) == k;
        let x = s[i];
        s.to_multiset_ensures();
        u.to_multiset_ensures();
        assert(s.contains(x));
        assert(s.to_multiset().count(x) > 0);
        assert(u.contains(x));
        let j = choose|j: int| 0 <= j < u.len() && u[j] == x;
        lemma_unique_token(s, i, k);
        lemma_unique_token(u, j, k);
    } else if exists|j: int| 0 <= j < u.len() && kind_of(u[j]) == k {
        let j = choose|j: int| 0 <= j < u.len() && kind_of(u[j]) == k;
        s.to_multiset_ensures();
        u.to_multiset_ensures();
        assert(u.contains(u[j]));
        assert(u.to_multiset().count(u[j]) > 0);
        assert(s.contains(u[j]));
    }
}

/// No style, weight or stretch keyword is empty.
proof fn lemma_keyword_kinds_not_empty(t: Seq<char>)
    ensures
        kind_of(t) == TokenKind::Style || kind_of(t) == TokenKind::Weight || kind_of(t)
            == TokenKind::Stretch ==> t.len() > 0,
{
    crate::laws::lemma_keywords_not_empty(t);
}

/// Absorbing one more token of a kind not yet seen fills that kind and
/// leaves the others as they were.
proof fn lemma_absorb_next(s: Seq<Seq<char>>, k: int)
    requires
        0 <= k < s.len(),
        distinct_kinds(s.subrange(0, k + 1)),
    ensures
        absorb(prefix_of(s.subrange(0, k)), s[k]) == Ok::<Prefix, crate::font::ParseError>(
            prefix_of(s.subrange(0, k + 1)),
        ),
{
    let a = s.subrange(0, k);
    let b = s.subrange(0, k + 1);
    let x = s[k];
    assert(b.drop_last() =~= a);
    assert(b.last() == x);
    assert(b =~= a.push(x));
    lemma_keyword_kinds_not_empty(x);
    let kd = kind_of(x);
    assert(kd != TokenKind::Size);
    if kd != TokenKind::Normal {
        assert(count_kind(b, kd) == count_kind(a, kd) + 1);
        assert(count_kind(a, kd) == 0);
        assert forall|i: int| 0 <= i < a.len() implies kind_of(a[i]) != kd by {
            if kind_of(a[i]) == kd {
                lemma_count_remove(a, i, kd);
            }
        }
        lemma_unique_token(b, k, kd);
        assert(token_of_kind(a, kd) == Seq::<char>::empty());
    }
    if kd != TokenKind::Style {
        lemma_other_kind(a, b, x, TokenKind::Style);
    }
    if kd != TokenKind::Weight {
        lemma_other_kind(a, b, x, TokenKind::Weight);
    }
    if kd != TokenKind::Stretch {
        lemma_other_kind(a, b, x, TokenKind::Stretch);
    }
    if kd != TokenKind::Variant {
        lemma_other_kind(a, b, x, TokenKind::Variant);
    }
}

proof fn lemma_other_kind(a: Seq<Seq<char>>, b: Seq<Seq<char>>, x: Seq<char>, k: TokenKind)
    requires
        b == a.push(x),
        kind_of(x) != k,
        count_kind(b, k) <= 1,
    ensures
        token_of_kind(b, k) == token_of_kind(a, k),
{
    assert(b.drop_last() =~= a);
    if exists|i: int| 0 <= i < a.len() && kind_of(a[i]) == k {
        let i = choose|i: int| 0 <= i < a.len() && kind_of(a[i]) == k;
        lemma_unique_token(a, i, k);
        assert(b[i] == a[i]);
        lemma_unique_token(b, i, k);
    } else {
        assert forall|i: int| 0 <= i < b.len() implies kind_of(b[i]) != k by {
            if i < a.len() {
                assert(b[i] == a[i]);
            }
        }
    }
}

/// Reading the first `k` of tokens that fill each property at most once
/// ends with the properties that those tokens fill.
proof fn lemma_walk_prefix(t: Seq<Seq<char>>, m: int, k: int)
    requires
        0 <= k <= m <= t.len(),
        distinct_kinds(t.subrange(0, m)),
    ensures
        parse_tokens(t, 0, no_prefix()) == parse_tokens(t, k, prefix_of(t.subrange(0, k))),
    decreases k,
{
    if k == 0 {
        assert(prefix_of(t.subrange(0, 0)) == no_prefix());
    } else {
        lemma_walk_prefix(t, m, k - 1);
        lemma_count_prefix(t, k, m, TokenKind::Style);
        lemma_count_prefix(t, k, m, TokenKind::Weight);
        lemma_count_prefix(t, k, m, TokenKind::Stretch);
        lemma_count_prefix(t, k, m, TokenKind::Variant);
        lemma_count_prefix(t, k, m, TokenKind::Size);
        lemma_absorb_next(t, k - 1);
        let b = t.subrange(0, k);
        assert(b.drop_last() =~= t.subrange(0, k - 1));
        assert(b.last() == t[k - 1]);
        assert(kind_of(t[k - 1]) != TokenKind::Size);
    }
}

/// The properties before the size may come in any order, and `normal` may
/// stand anywhere among them: for tokens before the size that fill each of
/// style, weight, stretch and variant at most once, any reordering of them
/// gives the same result, whatever follows.
pub proof fn lemma_prefix_any_order(tokens: Seq<Seq<char>>, m: int, q: Seq<Seq<char>>)
    requires
        0 <= m <= tokens.len(),
        distinct_kinds(tokens.subrange(0, m)),
        q.to_multiset() == tokens.subrange(0, m).to_multiset(),
    ensures
        parse_tokens(q + tokens.subrange(m, tokens.len() as int), 0, no_prefix()) == parse_tokens(
            tokens,
            0,
            no_prefix(),
        ),
{
    let s = tokens.subrange(0, m);
    let u = q + tokens.subrange(m, tokens.len() as int);
    q.to_multiset_ensures();
    s.to_multiset_ensures();
    assert(q.len() == s.len());
    assert(u.subrange(0, m) =~= q);
    lemma_prefix_of_permutation(s, q);
    lemma_walk_prefix(tokens, m, m);
    lemma_walk_prefix(u, m, m);
    lemma_tokens_from(tokens, u, m, prefix_of(s));
}

/// A plain token is a single token, and its scan ends outside any nesting.
proof fn lemma_plain_token(t: Seq<char>)
    requires
        is_plain_token(t),
    ensures
        tokens_of(t) == seq![t],
        scan(t, Separator::Whitespace, t.len() as int).nesting == outside(),
{
    lemma_split_unbroken(t, Separator::Whitespace, false);
}

/// Tokens of two values joined by a space are the tokens of each, where the
/// first ends outside any quote or parenthesis.
proof fn lemma_tokens_concat(a: Seq<char>, b: Seq<char>)
    requires
        scan(a, Separator::Whitespace, a.len() as int).nesting == outside(),
    ensures
        tokens_of(a + seq![' '] + b) == tokens_of(a) + tokens_of(b),
        scan(a + seq![' '] + b, Separator::Whitespace, (a.len() + 1 + b.len()) as int).nesting
            == scan(b, Separator::Whitespace, b.len() as int).nesting,
{
    lemma_split_concat(a, ' ', b, Separator::Whitespace, false);
}

/// Plain tokens joined by spaces split back into those tokens.
pub proof fn lemma_tokens_of_join(p: Seq<Seq<char>>)
    requires
        forall|i: int| 0 <= i < p.len() ==> is_plain_token(#[trigger] p[i]),
    ensures
        tokens_of(join_with_spaces(p)) == p,
        scan(join_with_spaces(p), Separator::Whitespace, join_with_spaces(p).len() as int).nesting
            == outside(),
    decreases p.len(),
{
    reveal_strlit(" ");
    if p.len() == 0 {
        assert(tokens_of(join_with_spaces(p)) =~= p);
    } else if p.len() == 1 {
        assert(is_plain_token(p[0]));
        lemma_plain_token(p[0]);
        assert(seq![p[0]] =~= p);
    } else {
        let d = p.drop_last();
        lemma_tokens_of_join(d);
        assert(is_plain_token(p.last()));
        lemma_plain_token(p.last());
        let a = join_with_spaces(d);
        assert(" "@ =~= seq![' ']);
        assert(join_with_spaces(p) == a + seq![' '] + p.last());
        lemma_tokens_concat(a, p.last());
        assert(d + seq![p.last()] =~= p);
    }
}

/// No system keyword holds a space.
pub proof fn lemma_no_space_in_system_keyword(v: Seq<char>, i: int)
    requires
        0 <= i < v.len(),
        v[i] == ' ',
    ensures
        system_font_of(v) is None,
{
    reveal_strlit("caption");
    reveal_strlit("icon");
    reveal_strlit("menu");
    reveal_strlit("message-box");
    reveal_strlit("small-caption");
    reveal_strlit("status-bar");
}

/// The value made of plain prefix tokens, a space and the rest reads as
/// those tokens followed by the tokens of the rest.
proof fn lemma_value_tokens(p: Seq<Seq<char>>, rest: Seq<char>)
    requires
        forall|i: int| 0 <= i < p.len() ==> is_plain_token(#[trigger] p[i]),
    ensures
        ({
            let v = join_with_spaces(p) + " "@ + rest;
            &&& v.len() > 0
            &&& system_font_of(v) is None
            &&& parse_spec(v) == parse_tokens(p + tokens_of(rest), 0, no_prefix())
        }),
{
    reveal_strlit(" ");
    let a = join_with_spaces(p);
    lemma_tokens_of_join(p);
    assert(" "@ =~= seq![' ']);
    let v = a + seq![' '] + rest;
    assert(v[a.len() as int] == ' ');
    lemma_no_space_in_system_keyword(v, a.len() as int);
    lemma_tokens_concat(a, rest);
}

/// The properties before the size may come in any order, and `normal` may
/// stand anywhere among them, in the text of a value: plain tokens that fill
/// each of style, weight, stretch and variant at most once, joined by spaces
/// and followed by a space and any rest, parse the same in every order.
pub proof fn lemma_prefix_any_order_in_text(p: Seq<Seq<char>>, q: Seq<Seq<char>>, rest: Seq<char>)
    requires
        forall|i: int| 0 <= i < p.len() ==> is_plain_token(#[trigger] p[i]),
        distinct_kinds(p),
        q.to_multiset() == p.to_multiset(),
    ensures
        parse_spec(join_with_spaces(q) + " "@ + rest) == parse_spec(
            join_with_spaces(p) + " "@ + rest,
        ),
{
    p.to_multiset_ensures();
    q.to_multiset_ensures();
    assert forall|i: int| 0 <= i < q.len() implies is_plain_token(#[trigger] q[i]) by {
        assert(q.contains(q[i]));
        assert(q.to_multiset().count(q[i]) > 0);
        assert(p.contains(q[i]));
    }
    lemma_value_tokens(p, rest);
    lemma_value_tokens(q, rest);
    let r = tokens_of(rest);
    let t = p + r;
    assert(t.subrange(0, p.len() as int) =~= p);
    assert(q + t.subrange(p.len() as int, t.len() as int) =~= q + r);
    lemma_prefix_any_order(t, p.len() as int, q);
}

} // verus!
