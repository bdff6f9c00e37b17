//! Splitting a value into its top-level parts: separators inside `( … )` or
//! inside a quoted string (where `\` escapes the next character) do not split,
//! and every part is trimmed.

use vstd::prelude::*;

use crate::text::{
    chars_of, is_trimmed, is_white_space, lemma_trim_is_trimmed, lemma_trim_of_trimmed,
    lemma_trim_subrange, trim, trim_bounds,
};

verus! {

/// Which characters separate the parts of a value.
#[derive(Clone, Copy, Debug, PartialEq, Eq, Structural)]
pub enum Separator {
    /// A space, a newline or a tab.
    Whitespace,
    /// A comma.
    Comma,
    /// A slash.
    Slash,
}

/// Whether `c` is one of the characters that `sep` stands for.
pub open spec fn separates(sep: Separator, c: char) -> bool {
    match sep {
        Separator::Whitespace => c == ' ' || c == '\n' || c == '\t',
        Separator::Comma => c == ',',
        Separator::Slash => c == '/',
    }
}

impl Separator {
    /// Executable form of [`separates`].
    pub fn matches(self, c: char) -> (r: bool)
        ensures
            r == separates(self, c),
    {
        match self {
            Separator::Whitespace => c == ' ' || c == '\n' || c == '\t',
            Separator::Comma => c == ',',
            Separator::Slash => c == '/',
        }
    }
}

/// Where a scan stands inside the value: how deep in parentheses, which
/// quote (if any) is open, and whether the previous character was an escaping
/// backslash inside that quote.
pub struct Nesting {
    pub depth: nat,
    pub quote: Option<char>,
    pub escape: bool,
}

/// The nesting before the first character.
pub open spec fn outside() -> Nesting {
    Nesting { depth: 0, quote: None, escape: false }
}

/// One character of the scan: the nesting after `c`, and whether `c` splits.
pub open spec fn step(n: Nesting, c: char, sep: Separator) -> (Nesting, bool) {
    match n.quote {
        Some(q) => if n.escape {
            (Nesting { escape: false, ..n }, false)
        } else if c == '\\' {
            (Nesting { escape: true, ..n }, false)
        } else if c == q {
            (Nesting { quote: None, ..n }, false)
        } else {
            (n, false)
        },
        None => if c == '"' || c == '\'' {
            (Nesting { quote: Some(c), ..n }, false)
        } else if c == '(' {
            (Nesting { depth: n.depth + 1, ..n }, false)
        } else if c == ')' {
            (Nesting { depth: if n.depth > 0 { (n.depth - 1) as nat } else { 0 }, ..n }, false)
        } else {
            (n, n.depth == 0 && separates(sep, c))
        },
    }
}

/// The state of a scan after some characters: the nesting, where the part
/// that is being gathered starts, and the parts emitted so far.
pub struct Scan {
    pub nesting: Nesting,
    pub start: int,
    pub parts: Seq<Seq<char>>,
}

/// The scan of `s` after its first `n` characters. A splitting character
/// ends the current part, which is emitted trimmed unless it is empty.
pub open spec fn scan(s: Seq<char>, sep: Separator, n: int) -> Scan
    decreases n,
{
    if n <= 0 {
        Scan { nesting: outside(), start: 0, parts: Seq::empty() }
    } else {
        let prev = scan(s, sep, n - 1);
        let (nesting, splits) = step(prev.nesting, s[n - 1], sep);
        if splits {
            Scan {
                nesting,
                start: n,
                parts: if n - 1 > prev.start {
                    prev.parts.push(trim(s.subrange(prev.start, n - 1)))
                } else {
                    prev.parts
                },
            }
        } else {
            Scan { nesting, ..prev }
        }
    }
}

/// The top-level parts of `s` split on `sep`, each trimmed. A part is emitted
/// only if it was not empty before trimming, except that with `last` the
/// final part is always emitted.
pub open spec fn split_spec(s: Seq<char>, sep: Separator, last: bool) -> Seq<Seq<char>> {
    let sc = scan(s, sep, s.len() as int);
    if last || s.len() > sc.start {
        sc.parts.push(trim(s.subrange(sc.start, s.len() as int)))
    } else {
        sc.parts
    }
}

/// The views of a list of strings.
pub open spec fn views(v: Seq<String>) -> Seq<Seq<char>> {
    v.map_values(|p: String| p@)
}

/// Split `value` on `sep` at the top level: separators inside `( … )` or a
/// quoted string (honoring `\` escapes) do not split. Each emitted part is
/// trimmed; when `last` is set, the final part is emitted even if empty.
pub fn split(value: &str, sep: Separator, last: bool) -> (parts: Vec<String>)
    ensures
        views(parts@) == split_spec(value@, sep, last),
{
    let cs = chars_of(value);
    let n = cs.len();
    let mut parts: Vec<String> = Vec::new();
    let mut start: usize = 0;
    let mut depth: usize = 0;
    let mut quote: Option<char> = None;
    let mut escape = false;
    let mut i: usize = 0;
    assert(views(parts@) =~= Seq::<Seq<char>>::empty());
    while i < n
        invariant
            n == cs@.len(),
            cs@ == value@,
            start <= i <= n,
            depth <= i,
            scan(value@, sep, i as int) == (Scan {
                nesting: Nesting { depth: depth as nat, quote, escape },
                start: start as int,
                parts: views(parts@),
            }),
        decreases n - i,
    {
        let c = cs[i];
        let mut split_here = false;
        match quote {
            Some(q) => {
                if escape {
                    escape = false;
                } else if c == '\\' {
                    escape = true;
                } else if c == q {
                    quote = None;
                }
            },
            None => {
                if c == '"' || c == '\'' {
                    quote = Some(c);
                } else if c == '(' {
                    depth = depth + 1;
                } else if c == ')' {
                    if depth > 0 {
                        depth = depth - 1;
                    }
                } else if depth == 0 && sep.matches(c) {
                    split_here = true;
                }
            },
        }
        if split_here {
            if i > start {
                let (a, b) = trim_bounds(&cs, start, i);
                let part = value.substring_char(a, b).to_owned();
                let ghost before = parts@;
                parts.push(part);
                assert(views(parts@) =~= views(before).push(part@));
            }
            start = i + 1;
        }
        i = i + 1;
    }
    if last || n > start {
        let (a, b) = trim_bounds(&cs, start, n);
        let part = value.substring_char(a, b).to_owned();
        let ghost before = parts@;
        parts.push(part);
        assert(views(parts@) =~= views(before).push(part@));
    }
    parts
}

/// Split on top-level white space (space, newline, tab), dropping empty parts.
pub fn split_by_spaces(s: &str) -> (parts: Vec<String>)
    ensures
        views(parts@) == split_spec(s@, Separator::Whitespace, false),
{
    split(s, Separator::Whitespace, false)
}

/// Split on top-level commas; the final (possibly empty) part is always kept.
pub fn split_by_commas(s: &str) -> (parts: Vec<String>)
    ensures
        views(parts@) == split_spec(s@, Separator::Comma, true),
{
    split(s, Separator::Comma, true)
}

/// Split a single size token on `/`.
pub fn split_on_slash(s: &str) -> (parts: Vec<String>)
    ensures
        views(parts@) == split_spec(s@, Separator::Slash, false),
{
    split(s, Separator::Slash, false)
}

proof fn lemma_scan_parts_trimmed(s: Seq<char>, sep: Separator, n: int)
    ensures
        forall|k: int|
            0 <= k < scan(s, sep, n).parts.len() ==> is_trimmed(#[trigger] scan(s, sep, n).parts[k]),
        n >= 0 ==> 0 <= scan(s, sep, n).start <= n,
    decreases n,
{
    if n > 0 {
        lemma_scan_parts_trimmed(s, sep, n - 1);
        let prev = scan(s, sep, n - 1);
        lemma_trim_is_trimmed(s.subrange(prev.start, n - 1));
    }
}

/// Every part that a split gives back is trimmed, and a split that keeps its
/// last part gives back at least one part.
pub proof fn lemma_split_parts_trimmed(s: Seq<char>, sep: Separator, last: bool)
    ensures
        forall|k: int|
            0 <= k < split_spec(s, sep, last).len() ==> is_trimmed(
                #[trigger] split_spec(s, sep, last)[k],
            ),
        last ==> split_spec(s, sep, last).len() >= 1,
{
    lemma_scan_parts_trimmed(s, sep, s.len() as int);
    let sc = scan(s, sep, s.len() as int);
    lemma_trim_is_trimmed(s.subrange(sc.start, s.len() as int));
}

/// Whether the character at `j` splits, in the scan of `s`.
pub open spec fn splits_at(s: Seq<char>, sep: Separator, j: int) -> bool {
    step(scan(s, sep, j).nesting, s[j], sep).1
}

/// Outside quotes there is no pending escape.
proof fn lemma_escape_only_in_quote(s: Seq<char>, sep: Separator, n: int)
    ensures
        scan(s, sep, n).nesting.quote is None ==> !scan(s, sep, n).nesting.escape,
    decreases n,
{
    if n > 0 {
        lemma_escape_only_in_quote(s, sep, n - 1);
    }
}

/// Scanning a stretch of `s` that starts outside any nesting and holds no
/// splitting character goes through the same nesting as the scan of `s`.
proof fn lemma_scan_shift(s: Seq<char>, sep: Separator, a: int, b: int, j: int)
    requires
        0 <= a <= b <= s.len(),
        0 <= j <= b - a,
        scan(s, sep, a).nesting == outside(),
        forall|k: int| a <= k < b ==> !#[trigger] splits_at(s, sep, k),
    ensures
        scan(s.subrange(a, b), sep, j).nesting == scan(s, sep, a + j).nesting,
        scan(s.subrange(a, b), sep, j).start == 0,
        scan(s.subrange(a, b), sep, j).parts.len() == 0,
    decreases j,
{
    if j > 0 {
        lemma_scan_shift(s, sep, a, b, j - 1);
        assert(!splits_at(s, sep, a + j - 1));
        assert(s.subrange(a, b)[j - 1] == s[a + j - 1]);
    }
}

/// White space before the first splitting character leaves the scan outside
/// any nesting.
proof fn lemma_leading_space(s: Seq<char>, sep: Separator, x: int)
    requires
        0 <= x <= s.len(),
        forall|k: int| 0 <= k < x ==> is_white_space(#[trigger] s[k]),
        forall|k: int| 0 <= k < s.len() ==> !#[trigger] splits_at(s, sep, k),
    ensures
        scan(s, sep, x).nesting == outside(),
    decreases x,
{
    if x > 0 {
        lemma_leading_space(s, sep, x - 1);
        assert(is_white_space(s[x - 1]));
        assert(!splits_at(s, sep, x - 1));
    }
}

/// A part cut from a stretch that starts outside any nesting and holds no
/// splitting character splits again into just itself.
proof fn lemma_part_resplits(s: Seq<char>, sep: Separator, a: int, b: int)
    requires
        0 <= a <= b <= s.len(),
        scan(s, sep, a).nesting == outside(),
        forall|k: int| a <= k < b ==> !#[trigger] splits_at(s, sep, k),
    ensures
        resplits(trim(s.subrange(a, b)), sep),
{
    let seg = s.subrange(a, b);
    let n = seg.len() as int;
    assert forall|k: int| 0 <= k < n implies !#[trigger] splits_at(seg, sep, k) by {
        lemma_scan_shift(s, sep, a, b, k);
        assert(!splits_at(s, sep, a + k));
        assert(seg[k] == s[a + k]);
    }
    let (x, y) = lemma_trim_subrange(seg);
    lemma_leading_space(seg, sep, x);
    let p = trim(seg);
    assert(p == seg.subrange(x, y));
    lemma_scan_shift(seg, sep, x, y, y - x);
    lemma_trim_is_trimmed(seg);
    lemma_trim_of_trimmed(p);
    let sc = scan(p, sep, p.len() as int);
    assert(sc.start == 0 && sc.parts.len() == 0);
    assert(p.subrange(0, p.len() as int) =~= p);
    if p.len() > 0 {
        assert(sc.parts.push(trim(p.subrange(sc.start, p.len() as int))) =~= seq![p]);
    }
}

/// Splitting `p` again, keeping the last part or not, gives back `p` alone,
/// where `p` is not empty.
pub open spec fn resplits(p: Seq<char>, sep: Separator) -> bool {
    p.len() > 0 ==> split_spec(p, sep, false) == seq![p] && split_spec(p, sep, true) == seq![p]
}

proof fn lemma_scan_parts_resplit(s: Seq<char>, sep: Separator, n: int)
    requires
        0 <= n <= s.len(),
    ensures
        ({
            let sc = scan(s, sep, n);
            &&& 0 <= sc.start <= n
            &&& scan(s, sep, sc.start).nesting == outside()
            &&& forall|k: int| sc.start <= k < n ==> !#[trigger] splits_at(s, sep, k)
            &&& forall|k: int| 0 <= k < sc.parts.len() ==> resplits(#[trigger] sc.parts[k], sep)
        }),
    decreases n,
{
    if n > 0 {
        lemma_scan_parts_resplit(s, sep, n - 1);
        lemma_escape_only_in_quote(s, sep, n - 1);
        let prev = scan(s, sep, n - 1);
        if splits_at(s, sep, n - 1) {
            if n - 1 > prev.start {
                lemma_part_resplits(s, sep, prev.start, n - 1);
            }
        }
    }
}

/// A part that a split gives back has no top-level separator left: splitting
/// a non-empty part again, keeping the last part or not, gives back that part.
pub proof fn lemma_split_parts_resplit(s: Seq<char>, sep: Separator, last: bool)
    ensures
        forall|k: int|
            0 <= k < split_spec(s, sep, last).len() ==> resplits(
                #[trigger] split_spec(s, sep, last)[k],
                sep,
            ),
{
    lemma_scan_parts_resplit(s, sep, s.len() as int);
    let sc = scan(s, sep, s.len() as int);
    lemma_part_resplits(s, sep, sc.start, s.len() as int);
}

/// A character that neither separates tokens, nor is trimmed, nor opens or
/// closes a quote or a parenthesis.
pub open spec fn is_plain_char(c: char) -> bool {
    !is_white_space(c) && c != '"' && c != '\'' && c != '(' && c != ')'
}

/// A non-empty token made of plain characters, such as a keyword or a word
/// of letters and hyphens.
pub open spec fn is_plain_token(t: Seq<char>) -> bool {
    t.len() > 0 && forall|i: int| 0 <= i < t.len() ==> is_plain_char(#[trigger] t[i])
}

/// Plain characters none of which separates: the scan stays outside any
/// nesting and splits nowhere.
proof fn lemma_scan_unbroken(t: Seq<char>, sep: Separator, n: int)
    requires
        0 <= n <= t.len(),
        forall|i: int| 0 <= i < t.len() ==> is_plain_char(#[trigger] t[i]) && !separates(sep, t[i]),
    ensures
        scan(t, sep, n) == (Scan { nesting: outside(), start: 0, parts: Seq::<Seq<char>>::empty() }),
    decreases n,
{
    if n > 0 {
        lemma_scan_unbroken(t, sep, n - 1);
        assert(is_plain_char(t[n - 1]) && !separates(sep, t[n - 1]));
    }
}

/// A non-empty value of plain characters none of which separates is a single
/// part, and its scan ends outside any nesting.
pub proof fn lemma_split_unbroken(t: Seq<char>, sep: Separator, last: bool)
    requires
        t.len() > 0,
        forall|i: int| 0 <= i < t.len() ==> is_plain_char(#[trigger] t[i]) && !separates(sep, t[i]),
    ensures
        split_spec(t, sep, last) == seq![t],
        scan(t, sep, t.len() as int).nesting == outside(),
{
    lemma_scan_unbroken(t, sep, t.len() as int);
    assert(t.subrange(0, t.len() as int) =~= t);
    assert(is_plain_char(t[0]) && is_plain_char(t.last()));
    assert(is_trimmed(t));
    lemma_trim_of_trimmed(t);
    assert(Seq::<Seq<char>>::empty().push(trim(t)) =~= seq![t]);
}

proof fn lemma_scan_start_bounds(s: Seq<char>, sep: Separator, n: int)
    requires
        0 <= n,
    ensures
        0 <= scan(s, sep, n).start <= n,
    decreases n,
{
    if n > 0 {
        lemma_scan_start_bounds(s, sep, n - 1);
    }
}

proof fn lemma_scan_prefix(a: Seq<char>, w: Seq<char>, sep: Separator, n: int)
    requires
        0 <= n <= a.len() <= w.len(),
        w.subrange(0, a.len() as int) == a,
    ensures
        scan(w, sep, n) == scan(a, sep, n),
    decreases n,
{
    if n > 0 {
        lemma_scan_prefix(a, w, sep, n - 1);
        assert(w[n - 1] == w.subrange(0, a.len() as int)[n - 1]);
        lemma_scan_start_bounds(a, sep, n - 1);
        let st = scan(a, sep, n - 1).start;
        assert(w.subrange(st, n - 1) =~= a.subrange(st, n - 1));
    }
}

proof fn lemma_scan_suffix(a: Seq<char>, c: char, b: Seq<char>, sep: Separator, j: int)
    requires
        0 <= j <= b.len(),
        separates(sep, c),
        scan(a, sep, a.len() as int).nesting == outside(),
    ensures
        ({
            let w = a + seq![c] + b;
            let sw = scan(w, sep, a.len() + 1 + j);
            let sb = scan(b, sep, j);
            &&& sw.nesting == sb.nesting
            &&& sw.start == a.len() + 1 + sb.start
            &&& sw.parts == split_spec(a, sep, false) + sb.parts
        }),
    decreases j,
{
    let w = a + seq![c] + b;
    let na = a.len() as int;
    if j == 0 {
        assert(w.subrange(0, na) =~= a);
        lemma_scan_prefix(a, w, sep, na);
        lemma_scan_start_bounds(a, sep, na);
        let sa = scan(a, sep, na);
        assert(w[na] == c);
        assert(w.subrange(sa.start, na) =~= a.subrange(sa.start, na));
        assert(split_spec(a, sep, false) + Seq::<Seq<char>>::empty() =~= split_spec(a, sep, false));
    } else {
        lemma_scan_suffix(a, c, b, sep, j - 1);
        lemma_scan_start_bounds(b, sep, j - 1);
        let sb = scan(b, sep, j - 1);
        assert(w[na + 1 + j - 1] == b[j - 1]);
        assert(w.subrange(na + 1 + sb.start, na + j) =~= b.subrange(sb.start, j - 1));
        let pa = split_spec(a, sep, false);
        assert(forall|y: Seq<char>| (pa + sb.parts).push(y) =~= pa + sb.parts.push(y));
    }
}

/// Two values joined by a separating character split into the parts of each,
/// where the first ends outside any quote or parenthesis.
pub proof fn lemma_split_concat(a: Seq<char>, c: char, b: Seq<char>, sep: Separator, last: bool)
    requires
        separates(sep, c),
        scan(a, sep, a.len() as int).nesting == outside(),
    ensures
        split_spec(a + seq![c] + b, sep, last) == split_spec(a, sep, false) + split_spec(
            b,
            sep,
            last,
        ),
        scan(a + seq![c] + b, sep, (a.len() + 1 + b.len()) as int).nesting == scan(
            b,
            sep,
            b.len() as int,
        ).nesting,
{
    let w = a + seq![c] + b;
    lemma_scan_suffix(a, c, b, sep, b.len() as int);
    lemma_scan_start_bounds(b, sep, b.len() as int);
    let sb = scan(b, sep, b.len() as int);
    assert(w.len() == a.len() + 1 + b.len());
    assert(w.subrange(a.len() + 1 + sb.start, w.len() as int) =~= b.subrange(
        sb.start,
        b.len() as int,
    ));
    let pa = split_spec(a, sep, false);
    assert(forall|y: Seq<char>| (pa + sb.parts).push(y) =~= pa + sb.parts.push(y));
}

} // verus!
