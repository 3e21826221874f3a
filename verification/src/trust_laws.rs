//! What holds of every allowlist text: the order of its fields, blank
//! fields and the case of its letters do not matter.

use crate::text::{ascii_lowercase, is_space, lowercase_of, trimmed};
use crate::trust::{allowlist_of, entry_of, is_entry_field, is_field};
use vstd::prelude::*;
use vstd::utf8::is_ascii_chars;

verus! {

/// Two texts joined by a comma.
pub open spec fn joined(a: Seq<char>, b: Seq<char>) -> Seq<char> {
    a + seq![','] + b
}

proof fn lemma_joined_fields(a: Seq<char>, b: Seq<char>, from: int, to: int)
    ensures
        is_field(a, from, to) ==> is_field(joined(a, b), from, to) && joined(a, b).subrange(
            from,
            to,
        ) == a.subrange(from, to),
        is_field(b, from, to) ==> is_field(joined(a, b), from + a.len() + 1, to + a.len() + 1)
            && joined(a, b).subrange(from + a.len() + 1, to + a.len() + 1) == b.subrange(from, to),
        is_field(joined(a, b), from, to) ==> (to <= a.len() && is_field(a, from, to)) || (from
            > a.len() && is_field(b, from - a.len() - 1, to - a.len() - 1)),
{
    let c = joined(a, b);
    let n = a.len() as int;
    assert(c.len() == n + 1 + b.len());
    assert(c[n] == ',');
    assert forall|k: int| 0 <= k < n implies c[k] == a[k] by {}
    assert forall|k: int| 0 <= k < b.len() implies c[k + n + 1] == b[k] by {}
    if is_field(a, from, to) {
        assert(c.subrange(from, to) =~= a.subrange(from, to));
        assert forall|k: int| from <= k < to implies c[k] != ',' by {
            assert(c[k] == a[k]);
        }
    }
    if is_field(b, from, to) {
        assert(c.subrange(from + n + 1, to + n + 1) =~= b.subrange(from, to));
        assert forall|k: int| from + n + 1 <= k < to + n + 1 implies c[k] != ',' by {
            assert(c[k] == b[k - n - 1]);
        }
        if to < b.len() {
            assert(c[to + n + 1] == b[to]);
        }
        if from > 0 {
            assert(c[from - 1 + n + 1] == b[from - 1]);
        }
    }
    if is_field(c, from, to) {
        if from <= n && n < to {
            assert(c[n] != ',');
        }
        if to <= n {
            assert forall|k: int| from <= k < to implies a[k] != ',' by {
                assert(c[k] == a[k]);
            }
            if to < n {
                assert(c[to] == a[to]);
            }
            if from > 0 {
                assert(c[from - 1] == a[from - 1]);
            }
        } else {
            assert(from > n);
            let f = from - n - 1;
            let t = to - n - 1;
            assert forall|k: int| f <= k < t implies b[k] != ',' by {
                assert(c[k + n + 1] == b[k]);
            }
            if t < b.len() {
                assert(c[t + n + 1] == b[t]);
            }
            if f > 0 {
                assert(c[f - 1 + n + 1] == b[f - 1]);
            }
        }
    }
}

/// The allowlist of two texts joined by a comma holds the entries of the
/// one and those of the other.
pub proof fn lemma_allowlist_of_joined(a: Seq<char>, b: Seq<char>)
    ensures
        allowlist_of(joined(a, b)) == allowlist_of(a).union(allowlist_of(b)),
{
    let c = joined(a, b);
    let n = a.len() as int;
    let whole = allowlist_of(c);
    let parts = allowlist_of(a).union(allowlist_of(b));
    assert forall|entry: Seq<char>| whole.contains(entry) implies parts.contains(entry) by {
        let (from, to) = choose|from: int, to: int|
            #[trigger] is_entry_field(c, from, to) && to < c.len() + 1 && entry == entry_of(
                c,
                from,
                to,
            );
        lemma_joined_fields(a, b, from, to);
        if to <= n && is_field(a, from, to) {
            lemma_joined_fields(a, b, from, to);
            assert(is_entry_field(a, from, to) && to < a.len() + 1 && entry == entry_of(
                a,
                from,
                to,
            ));
            assert(allowlist_of(a).contains(entry));
        } else {
            let f = from - n - 1;
            let t = to - n - 1;
            lemma_joined_fields(a, b, f, t);
            assert(is_entry_field(b, f, t) && t < b.len() + 1 && entry == entry_of(b, f, t));
            assert(allowlist_of(b).contains(entry));
        }
    }
    assert forall|entry: Seq<char>| parts.contains(entry) implies whole.contains(entry) by {
        if allowlist_of(a).contains(entry) {
            let (from, to) = choose|from: int, to: int|
                #[trigger] is_entry_field(a, from, to) && to < a.len() + 1 && entry == entry_of(
                    a,
                    from,
                    to,
                );
            lemma_joined_fields(a, b, from, to);
            assert(is_entry_field(c, from, to) && to < c.len() + 1 && entry == entry_of(
                c,
                from,
                to,
            ));
        } else {
            let (from, to) = choose|from: int, to: int|
                #[trigger] is_entry_field(b, from, to) && to < b.len() + 1 && entry == entry_of(
                    b,
                    from,
                    to,
                );
            lemma_joined_fields(a, b, from, to);
            let f = from + n + 1;
            let t = to + n + 1;
            assert(is_entry_field(c, f, t) && t < c.len() + 1 && entry == entry_of(c, f, t));
        }
    }
    assert(whole =~= parts);
}

/// The order of the fields does not matter.
pub proof fn lemma_allowlist_ignores_order(a: Seq<char>, b: Seq<char>)
    ensures
        allowlist_of(joined(a, b)) == allowlist_of(joined(b, a)),
{
    lemma_allowlist_of_joined(a, b);
    lemma_allowlist_of_joined(b, a);
    assert(allowlist_of(a).union(allowlist_of(b)) =~= allowlist_of(b).union(allowlist_of(a)));
}

/// A field of white space alone adds nothing, and a field that comes twice
/// counts once.
pub proof fn lemma_allowlist_ignores_blanks_and_repeats(a: Seq<char>, blank: Seq<char>)
    requires
        forall|i: int| 0 <= i < blank.len() ==> is_space(#[trigger] blank[i]),
    ensures
        allowlist_of(joined(a, blank)) == allowlist_of(a),
        allowlist_of(joined(blank, a)) == allowlist_of(a),
        allowlist_of(joined(a, a)) == allowlist_of(a),
{
    lemma_allowlist_of_joined(a, blank);
    lemma_allowlist_of_joined(blank, a);
    lemma_allowlist_of_joined(a, a);
    assert forall|entry: Seq<char>| !allowlist_of(blank).contains(entry) by {
        if allowlist_of(blank).contains(entry) {
            let (from, to) = choose|from: int, to: int|
                #[trigger] is_entry_field(blank, from, to) && to < blank.len() + 1 && entry
                    == entry_of(blank, from, to);
            lemma_all_space_trims_to_nothing(blank.subrange(from, to));
        }
    }
    assert(allowlist_of(a).union(allowlist_of(blank)) =~= allowlist_of(a));
    assert(allowlist_of(blank).union(allowlist_of(a)) =~= allowlist_of(a));
    assert(allowlist_of(a).union(allowlist_of(a)) =~= allowlist_of(a));
}

proof fn lemma_all_space_trims_to_nothing(text: Seq<char>)
    requires
        forall|i: int| 0 <= i < text.len() ==> is_space(#[trigger] text[i]),
    ensures
        trimmed(text).len() == 0,
    decreases text.len(),
{
    if text.len() > 0 {
        assert(is_space(text[0]));
        assert forall|i: int| 0 <= i < text.drop_first().len() implies is_space(
            #[trigger] text.drop_first()[i],
        ) by {
            assert(text.drop_first()[i] == text[i + 1]);
        }
        lemma_all_space_trims_to_nothing(text.drop_first());
    }
}

/// Whether two texts in ASCII differ in the case of their letters alone.
pub open spec fn same_but_for_case(a: Seq<char>, b: Seq<char>) -> bool {
    is_ascii_chars(a) && is_ascii_chars(b) && ascii_lowercase(a) == ascii_lowercase(b)
}

proof fn lemma_same_but_for_case(a: Seq<char>, b: Seq<char>)
    requires
        same_but_for_case(a, b),
    ensures
        a.len() == b.len(),
        forall|i: int|
            0 <= i < a.len() ==> ((#[trigger] a[i]) == ',' <==> b[i] == ',') && is_space(a[i])
                == is_space(b[i]) && (a[i] as int) < 128 && (b[i] as int) < 128
                && ascii_lowercase(seq![a[i]]) == ascii_lowercase(seq![b[i]]),
{
    assert(ascii_lowercase(a).len() == a.len());
    assert(ascii_lowercase(b).len() == b.len());
    assert forall|i: int| 0 <= i < a.len() implies ((#[trigger] a[i]) == ',' <==> b[i] == ',')
        && is_space(a[i]) == is_space(b[i]) && (a[i] as int) < 128 && (b[i] as int) < 128
        && ascii_lowercase(seq![a[i]]) == ascii_lowercase(seq![b[i]]) by {
        assert(ascii_lowercase(a)[i] == ascii_lowercase(b)[i]);
        assert((a[i] as nat) < 128);
        assert((b[i] as nat) < 128);
        assert(ascii_lowercase(seq![a[i]]) =~= ascii_lowercase(seq![b[i]]));
    }
}

proof fn lemma_trimmed_alike(x: Seq<char>, y: Seq<char>) -> (bounds: (int, int))
    requires
        x.len() == y.len(),
        forall|i: int| 0 <= i < x.len() ==> is_space(#[trigger] x[i]) == is_space(y[i]),
    ensures
        0 <= bounds.0 <= bounds.1 <= x.len(),
        trimmed(x) == x.subrange(bounds.0, bounds.1),
        trimmed(y) == y.subrange(bounds.0, bounds.1),
    decreases x.len(),
{
    if x.len() == 0 {
        assert(x.subrange(0, 0) =~= x);
        assert(y.subrange(0, 0) =~= y);
        (0, 0)
    } else if is_space(x[0]) {
        assert(is_space(y[0]));
        assert forall|i: int| 0 <= i < x.drop_first().len() implies is_space(
            #[trigger] x.drop_first()[i],
        ) == is_space(y.drop_first()[i]) by {
            assert(x.drop_first()[i] == x[i + 1]);
            assert(is_space(x[i + 1]) == is_space(y[i + 1]));
        }
        let inner = lemma_trimmed_alike(x.drop_first(), y.drop_first());
        assert(x.drop_first().subrange(inner.0, inner.1) =~= x.subrange(inner.0 + 1, inner.1 + 1));
        assert(y.drop_first().subrange(inner.0, inner.1) =~= y.subrange(inner.0 + 1, inner.1 + 1));
        (inner.0 + 1, inner.1 + 1)
    } else if is_space(x.last()) {
        assert(!is_space(y[0]));
        assert(is_space(x[x.len() - 1]) == is_space(y[x.len() - 1]));
        assert forall|i: int| 0 <= i < x.drop_last().len() implies is_space(
            #[trigger] x.drop_last()[i],
        ) == is_space(y.drop_last()[i]) by {
            assert(x.drop_last()[i] == x[i]);
            assert(is_space(x[i]) == is_space(y[i]));
        }
        let inner = lemma_trimmed_alike(x.drop_last(), y.drop_last());
        assert(x.drop_last().subrange(inner.0, inner.1) =~= x.subrange(inner.0, inner.1));
        assert(y.drop_last().subrange(inner.0, inner.1) =~= y.subrange(inner.0, inner.1));
        inner
    } else {
        assert(!is_space(y[0]));
        assert(is_space(x[x.len() - 1]) == is_space(y[x.len() - 1]));
        assert(x.subrange(0, x.len() as int) =~= x);
        assert(y.subrange(0, y.len() as int) =~= y);
        (0, x.len() as int)
    }
}

/// The case of the letters does not matter: two texts in ASCII that differ
/// in the case of their letters alone stand for the same allowlist.
pub proof fn lemma_allowlist_ignores_case(a: Seq<char>, b: Seq<char>)
    requires
        same_but_for_case(a, b),
    ensures
        allowlist_of(a) == allowlist_of(b),
{
    lemma_same_but_for_case(a, b);
    lemma_same_but_for_case(b, a);
    assert forall|entry: Seq<char>| allowlist_of(a).contains(entry) implies allowlist_of(
        b,
    ).contains(entry) by {
        lemma_allowlist_case_one_way(a, b, entry);
    }
    assert forall|entry: Seq<char>| allowlist_of(b).contains(entry) implies allowlist_of(
        a,
    ).contains(entry) by {
        lemma_allowlist_case_one_way(b, a, entry);
    }
    assert(allowlist_of(a) =~= allowlist_of(b));
}

proof fn lemma_allowlist_case_one_way(a: Seq<char>, b: Seq<char>, entry: Seq<char>)
    requires
        same_but_for_case(a, b),
        allowlist_of(a).contains(entry),
    ensures
        allowlist_of(b).contains(entry),
{
    lemma_same_but_for_case(a, b);
    let (from, to) = choose|from: int, to: int|
        #[trigger] is_entry_field(a, from, to) && to < a.len() + 1 && entry == entry_of(
            a,
            from,
            to,
        );
    let x = a.subrange(from, to);
    let y = b.subrange(from, to);
    assert forall|k: int| from <= k < to implies b[k] != ',' by {
        assert(a[k] != ',');
    }
    assert(is_field(b, from, to));
    assert forall|i: int| 0 <= i < x.len() implies is_space(#[trigger] x[i]) == is_space(y[i]) by {
        assert(x[i] == a[from + i]);
        assert(y[i] == b[from + i]);
    }
    let bounds = lemma_trimmed_alike(x, y);
    let p = trimmed(x);
    let q = trimmed(y);
    assert(p.len() == q.len());
    assert forall|i: int| 0 <= i < p.len() implies (p[i] as nat) < 128 && (q[i] as nat) < 128
        && ascii_lowercase(p)[i] == ascii_lowercase(q)[i] by {
        let k = from + bounds.0 + i;
        assert(p[i] == a[k]);
        assert(q[i] == b[k]);
        assert(ascii_lowercase(seq![a[k]])[0] == ascii_lowercase(seq![b[k]])[0]);
    }
    assert(is_ascii_chars(p));
    assert(is_ascii_chars(q));
    assert(ascii_lowercase(p) =~= ascii_lowercase(q));
    assert(lowercase_of(p) == lowercase_of(q));
    assert(is_entry_field(b, from, to) && to < b.len() + 1 && entry == entry_of(b, from, to));
}

} // verus!
