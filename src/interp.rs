//! The interpolator: resolves a template's keys against named values and
//! joins literals and rendered values into one string.
use vstd::prelude::*;
use vstd::string::StringExecFns;
use crate::render::Render;
use crate::scan::{parse_literal_tpl, split_template, template_literals, template_keys, segments, views};
use crate::text::{string_with_capacity, push_char};

verus! {

/// The room reserved for each rendered value when sizing the output.
pub const VALUE_ESTIMATE: usize = 16;

/// Why a template could not be filled in.
#[derive(Debug, Clone, PartialEq, Eq)]
pub enum FormatError {
    /// A placeholder names a key that has no value.
    MissingKey(String),
}

impl FormatError {
    /// The key that has no value.
    pub fn key(&self) -> (r: &String)
        ensures
            self matches FormatError::MissingKey(k) && r == k,
    {
        match self {
            FormatError::MissingKey(k) => k,
        }
    }
}

/// The first index at or after `j` whose binding is named `k`, or `b.len()`.
pub open spec fn find_from<V>(b: Seq<(String, V)>, k: Seq<char>, j: int) -> int
    decreases b.len() - j,
{
    if j >= b.len() {
        b.len() as int
    } else if b[j].0@ == k {
        j
    } else {
        find_from(b, k, j + 1)
    }
}

/// The index of the first binding named `k`, or `b.len()` if there is none.
pub open spec fn find_key<V>(b: Seq<(String, V)>, k: Seq<char>) -> int {
    find_from(b, k, 0)
}

/// Some binding is named `k`.
pub open spec fn has_key<V>(b: Seq<(String, V)>, k: Seq<char>) -> bool {
    exists|j: int| 0 <= j < b.len() && #[trigger] b[j].0@ == k
}

/// The text of the value bound to `k` (the first binding of that name).
pub open spec fn value_text<V: Render>(b: Seq<(String, V)>, k: Seq<char>) -> Seq<char> {
    b[find_key(b, k)].1.rendered()
}

/// Every key has a binding.
pub open spec fn all_bound<V>(b: Seq<(String, V)>, keys: Seq<Seq<char>>) -> bool {
    forall|i: int| 0 <= i < keys.len() ==> has_key(b, #[trigger] keys[i])
}

/// The index of the first key at or after `i` without a binding, or `keys.len()`.
pub open spec fn missing_from<V>(b: Seq<(String, V)>, keys: Seq<Seq<char>>, i: int) -> int
    decreases keys.len() - i,
{
    if i >= keys.len() {
        keys.len() as int
    } else if !has_key(b, keys[i]) {
        i
    } else {
        missing_from(b, keys, i + 1)
    }
}

/// The texts of the values for `keys`, in the keys' order.
pub open spec fn values_for<V: Render>(b: Seq<(String, V)>, keys: Seq<Seq<char>>) -> Seq<Seq<char>> {
    keys.map_values(|k: Seq<char>| value_text(b, k))
}

/// Literals and values interleaved: `lits[0] vals[0] lits[1] ... lits[n]`.
pub open spec fn join(lits: Seq<Seq<char>>, vals: Seq<Seq<char>>) -> Seq<char>
    decreases vals.len(),
{
    if lits.len() == 0 {
        Seq::empty()
    } else if vals.len() == 0 || lits.len() == 1 {
        lits[0]
    } else {
        join(lits.drop_last(), vals.drop_last()) + vals.last() + lits.last()
    }
}

/// What the strict path owes for literals, keys and bindings.
pub open spec fn interpolated<V: Render>(
    lits: Seq<Seq<char>>,
    keys: Seq<Seq<char>>,
    b: Seq<(String, V)>,
) -> Result<Seq<char>, Seq<char>> {
    if all_bound(b, keys) {
        Ok(join(lits, values_for(b, keys)))
    } else {
        Err(keys[missing_from(b, keys, 0)])
    }
}

pub proof fn lemma_find_from<V>(b: Seq<(String, V)>, k: Seq<char>, j: int)
    requires
        0 <= j <= b.len(),
    ensures
        j <= find_from(b, k, j) <= b.len(),
        find_from(b, k, j) < b.len() ==> b[find_from(b, k, j)].0@ == k,
        (forall|m: int| j <= m < b.len() ==> b[m].0@ != k) ==> find_from(b, k, j) == b.len(),
        (exists|m: int| j <= m < b.len() && b[m].0@ == k) ==> find_from(b, k, j) < b.len(),
        j == 0 && has_key(b, k) ==> find_from(b, k, j) < b.len(),
    decreases b.len() - j,
{
    if j < b.len() && b[j].0@ != k {
        lemma_find_from(b, k, j + 1);
        if exists|m: int| j <= m < b.len() && b[m].0@ == k {
            let m = choose|m: int| j <= m < b.len() && b[m].0@ == k;
            assert(m != j);
        }
    }
}

/// The index of the first binding named `k`, if there is one.
pub fn lookup<V>(b: &[(String, V)], k: &String) -> (r: Option<usize>)
    ensures
        r is Some <==> has_key(b@, k@),
        r matches Some(j) ==> j == find_key(b@, k@),
{
    let mut j: usize = 0;
    while j < b.len()
        invariant
            j <= b@.len(),
            find_key(b@, k@) == find_from(b@, k@, j as int),
            forall|m: int| 0 <= m < j ==> b@[m].0@ != k@,
        decreases b@.len() - j,
    {
        if b[j].0 == *k {
            proof {
                assert(has_key(b@, k@)) by {
                    assert(b@[j as int].0@ == k@);
                }
            }
            return Some(j);
        }
        j = j + 1;
    }
    proof {
        if has_key(b@, k@) {
            let m = choose|m: int| 0 <= m < b@.len() && #[trigger] b@[m].0@ == k@;
            assert(b@[m].0@ == k@);
        }
    }
    None
}

/// The outcome of a fill as plain values: the text, or the missing key.
pub open spec fn outcome(r: Result<String, FormatError>) -> Result<Seq<char>, Seq<char>> {
    match r {
        Ok(out) => Ok(out@),
        Err(FormatError::MissingKey(k)) => Err(k@),
    }
}

/// The room to reserve for the output: the literals' length and a fixed
/// estimate per value, saturating.
fn capacity_for(lit_len: usize, n_values: usize) -> (r: usize)
    ensures
        r >= lit_len,
{
    let extra: usize = match n_values.checked_mul(VALUE_ESTIMATE) {
        Some(x) => x,
        None => usize::MAX,
    };
    lit_len.saturating_add(extra)
}

/// Fills in a scanned template: `lits` and `keys` as the scanner gives them,
/// `lit_len` the literals' length (only used to size the output), and the
/// named values.
///
/// Every key is looked up, in order, before anything is rendered; the first
/// one without a binding fails the whole call with `MissingKey`. Otherwise the
/// result is `lits[0]`, the first value's text, `lits[1]`, ..., `lits[n]`. A
/// key that occurs twice is rendered twice.
pub fn interpolate<V: Render>(
    lits: &Vec<String>,
    keys: &Vec<String>,
    lit_len: usize,
    bindings: &[(String, V)],
) -> (r: Result<String, FormatError>)
    requires
        lits@.len() == keys@.len() + 1,
    ensures
        outcome(r) == interpolated(views(lits@), views(keys@), bindings@),
{
    let ghost ls = views(lits@);
    let ghost ks = views(keys@);
    let ghost b = bindings@;
    let n: usize = keys.len();
    // Resolve every key before producing any output.
    let mut idx: Vec<usize> = Vec::with_capacity(n);
    let mut i: usize = 0;
    while i < n
        invariant
            n == keys@.len(),
            ks == views(keys@),
            b == bindings@,
            i <= n,
            idx@.len() == i,
            forall|m: int| 0 <= m < i ==> has_key(b, #[trigger] ks[m]),
            forall|m: int| 0 <= m < i ==> #[trigger] idx@[m] == find_key(b, ks[m]),
            missing_from(b, ks, 0) == missing_from(b, ks, i as int),
        decreases n - i,
    {
        match lookup(bindings, &keys[i]) {
            Some(j) => {
                idx.push(j);
            },
            None => {
                assert(!all_bound(b, ks));
                return Err(FormatError::MissingKey(keys[i].clone()));
            },
        }
        i = i + 1;
    }
    assert(all_bound(b, ks));
    let ghost vals = values_for(b, ks);
    let mut out = string_with_capacity(capacity_for(lit_len, n));
    out.append(lits[0].as_str());
    let mut i: usize = 0;
    assert(ls.subrange(0, 1) =~= seq![ls[0]]);
    while i < n
        invariant
            n == keys@.len(),
            lits@.len() == n + 1,
            ls == views(lits@),
            ks == views(keys@),
            b == bindings@,
            vals == values_for(b, ks),
            all_bound(b, ks),
            idx@.len() == n,
            forall|m: int| 0 <= m < n ==> #[trigger] idx@[m] == find_key(b, ks[m]),
            i <= n,
            out@ == join(ls.subrange(0, i + 1), vals.subrange(0, i as int)),
        decreases n - i,
    {
        let j = idx[i];
        proof {
            lemma_find_from(b, ks[i as int], 0);
        }
        let text = bindings[j].1.render();
        out.append(text.as_str());
        out.append(lits[i + 1].as_str());
        proof {
            let l2 = ls.subrange(0, i + 2);
            let v2 = vals.subrange(0, i + 1);
            assert(l2.drop_last() =~= ls.subrange(0, i + 1));
            assert(v2.drop_last() =~= vals.subrange(0, i as int));
        }
        i = i + 1;
    }
    assert(ls.subrange(0, n + 1) =~= ls);
    assert(vals.subrange(0, n as int) =~= vals);
    Ok(out)
}

/// Fills in a template whose keys must all have values: the template is
/// scanned, then every key is resolved, then the output is assembled.
///
/// Single braces in the template stand doubled in the output, as the scanner
/// stores them.
pub fn html_format<V: Render>(template: &str, bindings: &[(String, V)]) -> (r: Result<
    String,
    FormatError,
>)
    requires
        template@.len() <= isize::MAX,
    ensures
        outcome(r) == interpolated(template_literals(template@), template_keys(template@), bindings@),
{
    let (lits, keys, lit_len) = parse_literal_tpl(template);
    interpolate(&lits, &keys, lit_len, bindings)
}

/// What a placeholder turns into on the lenient path: its value's text, or,
/// where the key has no binding, the placeholder written back as `{{key}}`.
pub open spec fn lenient_text<V: Render>(b: Seq<(String, V)>, k: Seq<char>) -> Seq<char> {
    if has_key(b, k) {
        value_text(b, k)
    } else {
        seq!['{', '{'] + k + seq!['}', '}']
    }
}

/// The lenient texts for `keys`, in the keys' order.
pub open spec fn lenient_values<V: Render>(b: Seq<(String, V)>, keys: Seq<Seq<char>>) -> Seq<
    Seq<char>,
> {
    keys.map_values(|k: Seq<char>| lenient_text(b, k))
}

/// What the lenient path owes for a template and bindings.
pub open spec fn lenient_output<V: Render>(t: Seq<char>, b: Seq<(String, V)>) -> Seq<char> {
    join(segments(t, 0).0, lenient_values(b, template_keys(t)))
}

/// Fills in a template that is only known at run time, and never fails.
///
/// Literal text, single braces included, is copied as it stands. A placeholder
/// whose key has a value becomes that value's text; one whose key has none is
/// written back as `{{key}}`, with the key trimmed.
pub fn html_format_dynamic<V: Render>(template: &str, bindings: &[(String, V)]) -> (r: String)
    requires
        template@.len() <= isize::MAX,
    ensures
        r@ == lenient_output(template@, bindings@),
{
    let (lits, keys, lit_len) = split_template(template, false);
    let ghost ls = views(lits@);
    let ghost ks = views(keys@);
    let ghost b = bindings@;
    let ghost vals = lenient_values(b, ks);
    let n: usize = keys.len();
    let mut out = string_with_capacity(capacity_for(lit_len, n));
    out.append(lits[0].as_str());
    let mut i: usize = 0;
    assert(ls.subrange(0, 1) =~= seq![ls[0]]);
    while i < n
        invariant
            n == keys@.len(),
            lits@.len() == n + 1,
            ls == views(lits@),
            ks == views(keys@),
            b == bindings@,
            vals == lenient_values(b, ks),
            i <= n,
            out@ == join(ls.subrange(0, i + 1), vals.subrange(0, i as int)),
        decreases n - i,
    {
        match lookup(bindings, &keys[i]) {
            Some(j) => {
                proof {
                    lemma_find_from(b, ks[i as int], 0);
                }
                let text = bindings[j].1.render();
                out.append(text.as_str());
            },
            None => {
                push_char(&mut out, '{');
                push_char(&mut out, '{');
                out.append(keys[i].as_str());
                push_char(&mut out, '}');
                push_char(&mut out, '}');
            },
        }
        out.append(lits[i + 1].as_str());
        proof {
            let l2 = ls.subrange(0, i + 2);
            let v2 = vals.subrange(0, i + 1);
            assert(l2.drop_last() =~= ls.subrange(0, i + 1));
            assert(v2.drop_last() =~= vals.subrange(0, i as int));
            assert(out@ =~= join(l2, v2));
        }
        i = i + 1;
    }
    assert(ls.subrange(0, n + 1) =~= ls);
    assert(vals.subrange(0, n as int) =~= vals);
    out
}

} // verus!
