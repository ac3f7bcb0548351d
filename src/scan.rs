//! The template scanner: splits a template into literal segments and
//! placeholder keys.
//!
//! A placeholder opens at two consecutive `{`. Whitespace after the opening
//! is skipped, the key runs up to the first `}` (or to the end of the
//! template when none follows), trailing whitespace is trimmed from it, and
//! the scan resumes two characters after that `}`. Outside placeholders every
//! character is literal text.
use vstd::prelude::*;
use crate::text::{is_ws, is_whitespace, string_with_capacity, push_char, chars_of};

verus! {

/// A placeholder opens at `k`: `s[k]` and `s[k + 1]` are both `{`.
pub open spec fn opens_at(s: Seq<char>, k: int) -> bool {
    0 <= k && k + 1 < s.len() && s[k] == '{' && s[k + 1] == '{'
}

/// The first position at or after `i` where a placeholder opens, or `s.len()`.
pub open spec fn next_open(s: Seq<char>, i: int) -> int
    decreases s.len() - i,
{
    if i >= s.len() {
        s.len() as int
    } else if opens_at(s, i) {
        i
    } else {
        next_open(s, i + 1)
    }
}

/// The first position at or after `i` that holds no whitespace, or `s.len()`.
pub open spec fn skip_ws(s: Seq<char>, i: int) -> int
    decreases s.len() - i,
{
    if i >= s.len() {
        s.len() as int
    } else if is_ws(s[i]) {
        skip_ws(s, i + 1)
    } else {
        i
    }
}

/// The first position at or after `i` that holds `}`, or `s.len()`.
pub open spec fn find_close(s: Seq<char>, i: int) -> int
    decreases s.len() - i,
{
    if i >= s.len() {
        s.len() as int
    } else if s[i] == '}' {
        i
    } else {
        find_close(s, i + 1)
    }
}

/// Where the scan resumes after a key that stopped at `e`: past the closing
/// pair, and never past the end.
pub open spec fn resume_at(s: Seq<char>, e: int) -> int {
    if e + 2 <= s.len() {
        e + 2
    } else {
        s.len() as int
    }
}

/// `t` without its trailing whitespace.
pub open spec fn trim_end(t: Seq<char>) -> Seq<char>
    decreases t.len(),
{
    if t.len() > 0 && is_ws(t.last()) {
        trim_end(t.drop_last())
    } else {
        t
    }
}

/// One character as it stands in a stored literal: a brace is doubled.
pub open spec fn escape_char(c: char) -> Seq<char> {
    if c == '{' {
        seq!['{', '{']
    } else if c == '}' {
        seq!['}', '}']
    } else {
        seq![c]
    }
}

/// Literal text with every brace doubled.
pub open spec fn escape(t: Seq<char>) -> Seq<char>
    decreases t.len(),
{
    if t.len() == 0 {
        Seq::empty()
    } else {
        escape(t.drop_last()) + escape_char(t.last())
    }
}

/// `escape` applied to each literal.
pub open spec fn escaped(ls: Seq<Seq<char>>) -> Seq<Seq<char>> {
    ls.map_values(|t: Seq<char>| escape(t))
}

/// The views of a sequence of strings.
pub open spec fn views(v: Seq<String>) -> Seq<Seq<char>> {
    v.map_values(|x: String| x@)
}

/// The total length of a sequence of texts.
pub open spec fn total_len(ls: Seq<Seq<char>>) -> nat
    decreases ls.len(),
{
    if ls.len() == 0 {
        0
    } else {
        total_len(ls.drop_last()) + ls.last().len()
    }
}

/// The segments of `s` from position `i` on: the raw literal texts (braces
/// not doubled) and, between consecutive literals, the keys.
pub open spec fn segments(s: Seq<char>, i: int) -> (Seq<Seq<char>>, Seq<Seq<char>>)
    decreases s.len() - i
    via segments_decreases
{
    if i >= s.len() {
        (seq![Seq::empty()], Seq::empty())
    } else {
        let p = next_open(s, i);
        let lit = s.subrange(i, p);
        if p >= s.len() {
            (seq![lit], Seq::empty())
        } else {
            let q = skip_ws(s, p + 2);
            let e = find_close(s, q);
            let rest = segments(s, resume_at(s, e));
            (seq![lit] + rest.0, seq![trim_end(s.subrange(q, e))] + rest.1)
        }
    }
}

proof fn lemma_next_open_bounds(s: Seq<char>, i: int)
    requires
        i <= s.len(),
    ensures
        i <= next_open(s, i) <= s.len(),
    decreases s.len() - i,
{
    if i < s.len() && !opens_at(s, i) {
        lemma_next_open_bounds(s, i + 1);
    }
}

proof fn lemma_skip_ws_bounds(s: Seq<char>, i: int)
    requires
        i <= s.len(),
    ensures
        i <= skip_ws(s, i) <= s.len(),
    decreases s.len() - i,
{
    if i < s.len() && is_ws(s[i]) {
        lemma_skip_ws_bounds(s, i + 1);
    }
}

proof fn lemma_find_close_bounds(s: Seq<char>, i: int)
    requires
        i <= s.len(),
    ensures
        i <= find_close(s, i) <= s.len(),
    decreases s.len() - i,
{
    if i < s.len() && s[i] != '}' {
        lemma_find_close_bounds(s, i + 1);
    }
}

/// Where a placeholder opens at `p`, its key lies in `[q, e]` and the scan
/// resumes strictly after `p`.
proof fn lemma_placeholder_bounds(s: Seq<char>, p: int)
    requires
        opens_at(s, p),
    ensures
        p + 2 <= skip_ws(s, p + 2) <= find_close(s, skip_ws(s, p + 2)) <= s.len(),
        p < resume_at(s, find_close(s, skip_ws(s, p + 2))) <= s.len(),
{
    lemma_skip_ws_bounds(s, p + 2);
    lemma_find_close_bounds(s, skip_ws(s, p + 2));
}

#[via_fn]
proof fn segments_decreases(s: Seq<char>, i: int) {
    if i < s.len() {
        lemma_next_open_bounds(s, i);
        let p = next_open(s, i);
        if p < s.len() {
            assert(opens_at(s, p)) by {
                lemma_next_open_is_open(s, i);
            }
            lemma_placeholder_bounds(s, p);
        }
    }
}

proof fn lemma_next_open_is_open(s: Seq<char>, i: int)
    requires
        i <= s.len(),
        next_open(s, i) < s.len(),
    ensures
        opens_at(s, next_open(s, i)),
    decreases s.len() - i,
{
    if i < s.len() && !opens_at(s, i) {
        lemma_next_open_is_open(s, i + 1);
    }
}

/// There is always one literal more than there are keys.
pub proof fn lemma_segments_shape(s: Seq<char>, i: int)
    ensures
        segments(s, i).0.len() == segments(s, i).1.len() + 1,
    decreases s.len() - i,
{
    if i < s.len() {
        let p = next_open(s, i);
        lemma_next_open_bounds(s, i);
        if p < s.len() {
            lemma_next_open_is_open(s, i);
            lemma_placeholder_bounds(s, p);
            lemma_segments_shape(s, resume_at(s, find_close(s, skip_ws(s, p + 2))));
        }
    }
}

/// The literals of a template as stored: braces doubled.
pub open spec fn template_literals(s: Seq<char>) -> Seq<Seq<char>> {
    escaped(segments(s, 0).0)
}

/// The placeholder keys of a template, in the order they occur.
pub open spec fn template_keys(s: Seq<char>) -> Seq<Seq<char>> {
    segments(s, 0).1
}

proof fn lemma_escape_push(t: Seq<char>, c: char)
    ensures
        escape(t.push(c)) == escape(t) + escape_char(c),
{
    assert(t.push(c).drop_last() =~= t);
}

/// The text of `c[from..to]`.
fn text_of(c: &Vec<char>, from: usize, to: usize) -> (r: String)
    requires
        from <= to <= c@.len(),
    ensures
        r@ == c@.subrange(from as int, to as int),
{
    let mut r = string_with_capacity(to - from);
    let mut k: usize = from;
    while k < to
        invariant
            from <= k <= to <= c@.len(),
            r@ == c@.subrange(from as int, k as int),
        decreases to - k,
    {
        push_char(&mut r, c[k]);
        k = k + 1;
        assert(r@ =~= c@.subrange(from as int, k as int));
    }
    r
}

/// A literal as the scanner stores it: braces doubled or kept as they are.
pub open spec fn literal_form(t: Seq<char>, double_braces: bool) -> Seq<char> {
    if double_braces {
        escape(t)
    } else {
        t
    }
}

/// The literals of a template, in the form asked for.
pub open spec fn literals_in_form(s: Seq<char>, double_braces: bool) -> Seq<Seq<char>> {
    if double_braces {
        template_literals(s)
    } else {
        segments(s, 0).0
    }
}

/// Splits a template into its literals and keys, doubling the braces of the
/// literals if `double_braces`; also gives the total length of the literals.
pub fn split_template(raw: &str, double_braces: bool) -> (r: (Vec<String>, Vec<String>, usize))
    requires
        raw@.len() <= isize::MAX,
    ensures
        views(r.0@) == literals_in_form(raw@, double_braces),
        views(r.1@) == template_keys(raw@),
        r.0@.len() == r.1@.len() + 1,
        r.2 == total_len(views(r.0@)),
{
    let c = chars_of(raw);
    let n: usize = c.len();
    let ghost s = raw@;
    let mut lits: Vec<String> = Vec::new();
    let mut keys: Vec<String> = Vec::new();
    let mut total: usize = 0;
    let mut i: usize = 0;
    loop
        invariant_except_break
            literals_in_form(s, double_braces) == views(lits@) + if double_braces {
                escaped(segments(s, i as int).0)
            } else {
                segments(s, i as int).0
            },
            template_keys(s) == views(keys@) + segments(s, i as int).1,
            total == total_len(views(lits@)),
            total <= 2 * i,
        invariant
            c@ == s,
            n == s.len(),
            n <= isize::MAX,
            i <= n,
        ensures
            views(lits@) == literals_in_form(s, double_braces),
            views(keys@) == template_keys(s),
            total == total_len(views(lits@)),
        decreases n - i,
    {
        // The literal run up to the next opening pair.
        let mut buf = string_with_capacity(0);
        let mut blen: usize = 0;
        let mut j: usize = i;
        while j < n && !(j + 1 < n && c[j] == '{' && c[j + 1] == '{')
            invariant
                c@ == s,
                n == s.len(),
                i <= j <= n,
                next_open(s, i as int) == next_open(s, j as int),
                buf@ == literal_form(s.subrange(i as int, j as int), double_braces),
                blen == buf@.len(),
                blen <= 2 * (j - i),
                n <= isize::MAX,
            decreases n - j,
        {
            let ch = c[j];
            proof {
                lemma_escape_push(s.subrange(i as int, j as int), ch);
                assert(s.subrange(i as int, j as int).push(ch) =~= s.subrange(i as int, j + 1));
            }
            if double_braces && ch == '{' {
                push_char(&mut buf, '{');
                push_char(&mut buf, '{');
                blen = blen + 2;
            } else if double_braces && ch == '}' {
                push_char(&mut buf, '}');
                push_char(&mut buf, '}');
                blen = blen + 2;
            } else {
                push_char(&mut buf, ch);
                blen = blen + 1;
            }
            j = j + 1;
            assert(buf@ =~= literal_form(s.subrange(i as int, j as int), double_braces));
        }
        assert(j == next_open(s, i as int));
        let ghost lit = s.subrange(i as int, j as int);
        total = total + blen;
        let ghost old_lits = lits@;
        lits.push(buf);
        assert(views(lits@) =~= views(old_lits).push(literal_form(lit, double_braces)));
        assert(views(lits@).drop_last() =~= views(old_lits));
        if j >= n {
            if i == n {
                assert(lit =~= Seq::<char>::empty());
            }
            assert(segments(s, i as int).0 =~= seq![lit]);
            assert(segments(s, i as int).1 =~= Seq::<Seq<char>>::empty());
            assert(escaped(seq![lit]) =~= seq![escape(lit)]);
            assert(views(keys@) + Seq::<Seq<char>>::empty() =~= views(keys@));
            assert(literals_in_form(s, double_braces) =~= views(lits@));
            break;
        }
        proof {
            lemma_next_open_is_open(s, i as int);
            lemma_placeholder_bounds(s, j as int);
        }
        // Whitespace after the opening pair.
        let mut q: usize = j + 2;
        while q < n && is_whitespace(c[q])
            invariant
                c@ == s,
                n == s.len(),
                j + 2 <= q <= n,
                skip_ws(s, j + 2) == skip_ws(s, q as int),
            decreases n - q,
        {
            q = q + 1;
        }
        // The key runs up to the first closing brace.
        let mut e: usize = q;
        while e < n && c[e] != '}'
            invariant
                c@ == s,
                n == s.len(),
                q <= e <= n,
                find_close(s, q as int) == find_close(s, e as int),
            decreases n - e,
        {
            e = e + 1;
        }
        // Trailing whitespace is not part of the key.
        let mut end: usize = e;
        while end > q && is_whitespace(c[end - 1])
            invariant
                c@ == s,
                n == s.len(),
                q <= end <= e <= n,
                trim_end(s.subrange(q as int, e as int)) == trim_end(s.subrange(q as int, end as int)),
            decreases end - q,
        {
            assert(s.subrange(q as int, end as int).drop_last() =~= s.subrange(q as int, end - 1));
            end = end - 1;
        }
        assert(trim_end(s.subrange(q as int, end as int)) == s.subrange(q as int, end as int));
        let key = text_of(&c, q, end);
        let ghost old_keys = keys@;
        keys.push(key);
        assert(views(keys@) =~= views(old_keys).push(key@));
        let next: usize = if e + 2 <= n { e + 2 } else { n };
        proof {
            let rest = segments(s, next as int);
            assert(segments(s, i as int).0 == seq![lit] + rest.0);
            assert(escaped(seq![lit] + rest.0) =~= seq![escape(lit)] + escaped(rest.0));
            assert(literals_in_form(s, double_braces) =~= views(lits@) + if double_braces {
                escaped(rest.0)
            } else {
                rest.0
            });
            assert(template_keys(s) =~= views(keys@) + rest.1);
        }
        i = next;
    }
    proof {
        lemma_segments_shape(s, 0);
    }
    (lits, keys, total)
}

/// Splits a template into its literal segments (braces doubled) and its
/// placeholder keys, and gives the total length of the literals.
///
/// `keys[i]` stands between `literals[i]` and `literals[i + 1]`; there is
/// always one literal more than there are keys, each possibly empty. The
/// length counts characters.
pub fn parse_literal_tpl(raw: &str) -> (r: (Vec<String>, Vec<String>, usize))
    requires
        raw@.len() <= isize::MAX,
    ensures
        views(r.0@) == template_literals(raw@),
        views(r.1@) == template_keys(raw@),
        r.0@.len() == r.1@.len() + 1,
        r.2 == total_len(views(r.0@)),
{
    split_template(raw, true)
}

} // verus!
