//! Properties that hold across the scanner and the interpolator.
use vstd::prelude::*;
use crate::render::Render;
use crate::scan::{next_open, segments, escape, template_literals, template_keys, total_len};
use crate::interp::{
    interpolated, join, lenient_output, lenient_values, has_key, find_key, value_text, all_bound,
    missing_from, values_for, lemma_find_from,
};

verus! {

/// A template with no opening pair is one raw literal and no keys.
proof fn lemma_single_segment(t: Seq<char>)
    requires
        next_open(t, 0) == t.len(),
    ensures
        segments(t, 0).0 == seq![t],
        segments(t, 0).1 == Seq::<Seq<char>>::empty(),
{
    assert(t.subrange(0, t.len() as int) =~= t);
    if t.len() == 0 {
        assert(t =~= Seq::<char>::empty());
    }
}

/// Text with no brace in it is its own escaped form.
pub proof fn lemma_escape_without_braces(t: Seq<char>)
    requires
        forall|i: int| 0 <= i < t.len() ==> t[i] != '{' && t[i] != '}',
    ensures
        escape(t) == t,
    decreases t.len(),
{
    if t.len() > 0 {
        lemma_escape_without_braces(t.drop_last());
        assert(escape(t) =~= t);
    }
}

/// A template without placeholders fills in to its own text with each brace
/// doubled, whatever the bindings; without braces at all, to the template
/// itself.
pub proof fn lemma_no_placeholders<V: Render>(t: Seq<char>, b: Seq<(String, V)>)
    requires
        next_open(t, 0) == t.len(),
    ensures
        interpolated(template_literals(t), template_keys(t), b) == Ok::<Seq<char>, Seq<char>>(
            escape(t),
        ),
        (forall|i: int| 0 <= i < t.len() ==> t[i] != '{' && t[i] != '}') ==> interpolated(
            template_literals(t),
            template_keys(t),
            b,
        ) == Ok::<Seq<char>, Seq<char>>(t),
{
    lemma_single_segment(t);
    assert(template_literals(t) =~= seq![escape(t)]);
    if forall|i: int| 0 <= i < t.len() ==> t[i] != '{' && t[i] != '}' {
        lemma_escape_without_braces(t);
    }
}

/// On the lenient path a template without placeholders comes back unchanged,
/// single braces included, whatever the bindings.
pub proof fn lemma_dynamic_passthrough<V: Render>(t: Seq<char>, b: Seq<(String, V)>)
    requires
        next_open(t, 0) == t.len(),
    ensures
        lenient_output(t, b) == t,
{
    lemma_single_segment(t);
    assert(lenient_values(b, template_keys(t)).len() == 0);
}

/// The filled-in text is exactly as long as the literals and the values
/// together: nothing is cut off or added, whatever room was reserved.
pub proof fn lemma_output_length(lits: Seq<Seq<char>>, vals: Seq<Seq<char>>)
    requires
        lits.len() == vals.len() + 1,
    ensures
        join(lits, vals).len() == total_len(lits) + total_len(vals),
    decreases vals.len(),
{
    if vals.len() == 0 {
        assert(lits.drop_last().len() == 0);
    } else {
        lemma_output_length(lits.drop_last(), vals.drop_last());
    }
}

/// No two bindings share a name.
pub open spec fn names_unique<V>(b: Seq<(String, V)>) -> bool {
    forall|i: int, j: int|
        0 <= i < b.len() && 0 <= j < b.len() && #[trigger] b[i].0@ == #[trigger] b[j].0@ ==> i == j
}

/// The same bindings, in any order: each binding of one stands in the other.
pub open spec fn same_bindings<V>(b1: Seq<(String, V)>, b2: Seq<(String, V)>) -> bool {
    &&& forall|i: int| 0 <= i < b1.len() ==> exists|j: int| 0 <= j < b2.len() && b2[j] == #[trigger] b1[i]
    &&& forall|j: int| 0 <= j < b2.len() ==> exists|i: int| 0 <= i < b1.len() && b1[i] == #[trigger] b2[j]
}

/// With unique names, the binding found for a name is the one that has it.
proof fn lemma_found_is_the_one<V>(b: Seq<(String, V)>, m: int)
    requires
        names_unique(b),
        0 <= m < b.len(),
    ensures
        find_key(b, b[m].0@) == m,
{
    lemma_find_from(b, b[m].0@, 0);
    let f = find_key(b, b[m].0@);
    assert(b[f].0@ == b[m].0@);
}

proof fn lemma_same_key_text<V: Render>(b1: Seq<(String, V)>, b2: Seq<(String, V)>, k: Seq<char>)
    requires
        names_unique(b1),
        names_unique(b2),
        same_bindings(b1, b2),
    ensures
        has_key(b1, k) == has_key(b2, k),
        has_key(b1, k) ==> value_text(b1, k) == value_text(b2, k),
{
    if has_key(b1, k) {
        let i = choose|i: int| 0 <= i < b1.len() && #[trigger] b1[i].0@ == k;
        let j = choose|j: int| 0 <= j < b2.len() && b2[j] == #[trigger] b1[i];
        assert(b2[j].0@ == k);
        lemma_found_is_the_one(b1, i);
        lemma_found_is_the_one(b2, j);
    }
    if has_key(b2, k) {
        let j = choose|j: int| 0 <= j < b2.len() && #[trigger] b2[j].0@ == k;
        let i = choose|i: int| 0 <= i < b1.len() && b1[i] == #[trigger] b2[j];
        assert(b1[i].0@ == k);
    }
}

proof fn lemma_same_missing<V: Render>(
    b1: Seq<(String, V)>,
    b2: Seq<(String, V)>,
    keys: Seq<Seq<char>>,
    i: int,
)
    requires
        names_unique(b1),
        names_unique(b2),
        same_bindings(b1, b2),
    ensures
        missing_from(b1, keys, i) == missing_from(b2, keys, i),
    decreases keys.len() - i,
{
    if i < keys.len() {
        lemma_same_key_text(b1, b2, keys[i]);
        lemma_same_missing(b1, b2, keys, i + 1);
    }
}

/// Where names are unique, the order of the bindings does not matter: the
/// same bindings in another order fill a template in the same way.
pub proof fn lemma_binding_order_free<V: Render>(
    lits: Seq<Seq<char>>,
    keys: Seq<Seq<char>>,
    b1: Seq<(String, V)>,
    b2: Seq<(String, V)>,
)
    requires
        names_unique(b1),
        names_unique(b2),
        same_bindings(b1, b2),
    ensures
        interpolated(lits, keys, b1) == interpolated(lits, keys, b2),
{
    assert forall|i: int| 0 <= i < keys.len() implies has_key(b1, keys[i]) == has_key(b2, keys[i])
        && (has_key(b1, keys[i]) ==> value_text(b1, keys[i]) == value_text(b2, keys[i])) by {
        lemma_same_key_text(b1, b2, keys[i]);
    }
    assert(all_bound(b1, keys) == all_bound(b2, keys));
    if all_bound(b1, keys) {
        assert(values_for(b1, keys) =~= values_for(b2, keys));
    } else {
        lemma_same_missing(b1, b2, keys, 0);
    }
}

/// A key that occurs more than once gets its value's text at every
/// occurrence.
pub proof fn lemma_repeated_key<V: Render>(keys: Seq<Seq<char>>, b: Seq<(String, V)>, i: int, j: int)
    requires
        0 <= i < keys.len(),
        0 <= j < keys.len(),
        keys[i] == keys[j],
    ensures
        values_for(b, keys)[i] == value_text(b, keys[i]),
        values_for(b, keys)[j] == value_text(b, keys[i]),
{
}

} // verus!
