//! The order of the output rows: by position, then key, then module id, the
//! texts compared character by character, as tuples of `usize` and `String`
//! compare.
use vstd::prelude::*;

verus! {

broadcast use vstd::seq_lib::group_to_multiset_ensures;

/// A row as the rules see it: its position, its key and its module id.
pub type RowView = (usize, Seq<char>, Seq<char>);

/// Whether `a` comes strictly before `b` in lexicographic order of code points,
/// which is the order of their UTF-8 bytes that `String` comparison uses.
pub open spec fn text_lt(a: Seq<char>, b: Seq<char>) -> bool
    decreases a.len(),
{
    if a.len() == 0 {
        b.len() > 0
    } else if b.len() == 0 {
        false
    } else if a[0] < b[0] {
        true
    } else if a[0] == b[0] {
        text_lt(a.drop_first(), b.drop_first())
    } else {
        false
    }
}

/// Whether row `a` comes strictly before row `b`.
pub open spec fn row_lt(a: RowView, b: RowView) -> bool {
    ||| a.0 < b.0
    ||| a.0 == b.0 && text_lt(a.1, b.1)
    ||| a.0 == b.0 && a.1 == b.1 && text_lt(a.2, b.2)
}

/// Whether row `a` may come before row `b`.
pub open spec fn row_le(a: RowView, b: RowView) -> bool {
    row_lt(a, b) || a == b
}

/// Whether `s` is in row order.
pub open spec fn rows_sorted(s: Seq<RowView>) -> bool {
    forall|i: int, j: int| 0 <= i < j < s.len() ==> row_le(#[trigger] s[i], #[trigger] s[j])
}

/// No text comes before itself.
pub proof fn lemma_text_lt_irreflexive(a: Seq<char>)
    ensures
        !text_lt(a, a),
    decreases a.len(),
{
    if a.len() > 0 {
        lemma_text_lt_irreflexive(a.drop_first());
    }
}

/// The order of texts is transitive.
pub proof fn lemma_text_lt_transitive(a: Seq<char>, b: Seq<char>, c: Seq<char>)
    requires
        text_lt(a, b),
        text_lt(b, c),
    ensures
        text_lt(a, c),
    decreases a.len(),
{
    if a.len() > 0 && b.len() > 0 && c.len() > 0 {
        if a[0] == b[0] && b[0] == c[0] {
            lemma_text_lt_transitive(a.drop_first(), b.drop_first(), c.drop_first());
        }
    }
}

/// Of two different texts, one comes before the other.
pub proof fn lemma_text_lt_total(a: Seq<char>, b: Seq<char>)
    requires
        a != b,
    ensures
        text_lt(a, b) || text_lt(b, a),
    decreases a.len(),
{
    if a.len() > 0 && b.len() > 0 && a[0] == b[0] {
        if a.drop_first() == b.drop_first() {
            assert(a =~= seq![a[0]] + a.drop_first());
            assert(b =~= seq![b[0]] + b.drop_first());
        }
        lemma_text_lt_total(a.drop_first(), b.drop_first());
    } else if a.len() == 0 && b.len() == 0 {
        assert(a =~= b);
    } else if a.len() > 0 && b.len() > 0 {
        assert(a[0] < b[0] || b[0] < a[0]);
    }
}

/// Of two texts, at most one comes before the other.
pub proof fn lemma_text_lt_asymmetric(a: Seq<char>, b: Seq<char>)
    requires
        text_lt(a, b),
    ensures
        !text_lt(b, a),
{
    if text_lt(b, a) {
        lemma_text_lt_transitive(a, b, a);
        lemma_text_lt_irreflexive(a);
    }
}

/// The order of rows is transitive.
pub proof fn lemma_row_lt_transitive(a: RowView, b: RowView, c: RowView)
    requires
        row_lt(a, b),
        row_lt(b, c),
    ensures
        row_lt(a, c),
{
    if a.0 == b.0 && b.0 == c.0 {
        if text_lt(a.1, b.1) && text_lt(b.1, c.1) {
            lemma_text_lt_transitive(a.1, b.1, c.1);
        } else if a.1 == b.1 && b.1 == c.1 {
            lemma_text_lt_transitive(a.2, b.2, c.2);
        }
    }
}

/// The order of rows, equal ones allowed, is transitive.
pub proof fn lemma_row_le_transitive(a: RowView, b: RowView, c: RowView)
    requires
        row_le(a, b),
        row_le(b, c),
    ensures
        row_le(a, c),
{
    if row_lt(a, b) && row_lt(b, c) {
        lemma_row_lt_transitive(a, b, c);
    }
}

/// No row comes before itself.
pub proof fn lemma_row_lt_irreflexive(a: RowView)
    ensures
        !row_lt(a, a),
{
    lemma_text_lt_irreflexive(a.1);
    lemma_text_lt_irreflexive(a.2);
}

/// Of two rows, one comes before the other or they are equal.
pub proof fn lemma_row_total(a: RowView, b: RowView)
    ensures
        row_le(a, b) || row_lt(b, a),
{
    if a != b && a.0 == b.0 {
        if a.1 != b.1 {
            lemma_text_lt_total(a.1, b.1);
        } else {
            assert(a.2 != b.2);
            lemma_text_lt_total(a.2, b.2);
        }
    }
}

/// Whether `a` comes strictly before `b`.
pub fn chars_lt(a: &Vec<char>, b: &Vec<char>) -> (r: bool)
    ensures
        r == text_lt(a@, b@),
{
    let mut i: usize = 0;
    assert(a@.skip(0) == a@);
    assert(b@.skip(0) == b@);
    while i < a.len() && i < b.len() && a[i] == b[i]
        invariant
            0 <= i <= a.len(),
            i <= b.len(),
            text_lt(a@, b@) == text_lt(a@.skip(i as int), b@.skip(i as int)),
        decreases a.len() - i,
    {
        assert(a@.skip(i as int).drop_first() == a@.skip(i + 1));
        assert(b@.skip(i as int).drop_first() == b@.skip(i + 1));
        i += 1;
    }
    if i == a.len() {
        i < b.len()
    } else if i == b.len() {
        false
    } else {
        assert(a@.skip(i as int)[0] == a@[i as int]);
        assert(b@.skip(i as int)[0] == b@[i as int]);
        a[i] < b[i]
    }
}

/// A row while it is built and sorted: position, key, module id.
pub type RowChars = (usize, Vec<char>, Vec<char>);

/// The view of a row.
pub open spec fn row_view(r: RowChars) -> RowView {
    (r.0, r.1@, r.2@)
}

/// The views of a sequence of rows.
pub open spec fn row_views(v: Seq<RowChars>) -> Seq<RowView> {
    v.map_values(|r: RowChars| row_view(r))
}

fn row_le_exec(a: &RowChars, b: &RowChars) -> (r: bool)
    ensures
        r == row_le(row_view(*a), row_view(*b)),
{
    if a.0 < b.0 {
        return true;
    }
    if a.0 > b.0 {
        return false;
    }
    if chars_lt(&a.1, &b.1) {
        return true;
    }
    if chars_lt(&b.1, &a.1) {
        proof {
            lemma_text_lt_asymmetric(b.1@, a.1@);
            lemma_text_lt_irreflexive(a.1@);
        }
        return false;
    }
    proof {
        if a.1@ != b.1@ {
            lemma_text_lt_total(a.1@, b.1@);
        }
    }
    if chars_lt(&a.2, &b.2) {
        return true;
    }
    proof {
        if a.2@ != b.2@ {
            lemma_text_lt_total(a.2@, b.2@);
            lemma_text_lt_asymmetric(b.2@, a.2@);
        }
        lemma_text_lt_irreflexive(a.2@);
    }
    crate::text::same_chars(&a.2, &b.2)
}

/// `rows` in row order: sorted, and holding the same rows as many times each.
pub fn sort_rows(rows: Vec<RowChars>) -> (out: Vec<RowChars>)
    ensures
        rows_sorted(row_views(out@)),
        row_views(out@).to_multiset() == row_views(rows@).to_multiset(),
{
    let mut rest = rows;
    let mut out: Vec<RowChars> = Vec::new();
    while rest.len() > 0
        invariant
            rows_sorted(row_views(out@)),
            row_views(out@).to_multiset().add(row_views(rest@).to_multiset()) == row_views(
                rows@,
            ).to_multiset(),
        decreases rest.len(),
    {
        let ghost before = rest@;
        let x = rest.pop().unwrap();
        proof {
            assert(row_views(before) == row_views(rest@).push(row_view(x)));
            vstd::seq_lib::to_multiset_build(row_views(rest@), row_view(x));
        }
        let mut p: usize = 0;
        while p < out.len() && row_le_exec(&out[p], &x)
            invariant
                0 <= p <= out.len(),
                forall|q: int| 0 <= q < p ==> row_le(#[trigger] row_views(out@)[q], row_view(x)),
            decreases out.len() - p,
        {
            p += 1;
        }
        let ghost old_out = row_views(out@);
        proof {
            if p < out.len() {
                lemma_row_total(old_out[p as int], row_view(x));
                assert forall|q: int| p <= q < old_out.len() implies row_lt(
                    row_view(x),
                    #[trigger] old_out[q],
                ) by {
                    if q > p {
                        assert(row_le(old_out[p as int], old_out[q]));
                        if row_lt(old_out[p as int], old_out[q]) {
                            lemma_row_lt_transitive(row_view(x), old_out[p as int], old_out[q]);
                        }
                    }
                }
            }
        }
        out.insert(p, x);
        proof {
            let nv = row_views(out@);
            assert(nv =~= old_out.insert(p as int, row_view(x)));
            vstd::seq_lib::to_multiset_insert(old_out, p as int, row_view(x));
            assert forall|i: int, j: int| 0 <= i < j < nv.len() implies row_le(
                #[trigger] nv[i],
                #[trigger] nv[j],
            ) by {
                if j < p {
                    assert(nv[i] == old_out[i] && nv[j] == old_out[j]);
                } else if j == p {
                    assert(nv[i] == old_out[i]);
                } else if i < p {
                    assert(nv[i] == old_out[i] && nv[j] == old_out[j - 1]);
                    assert(row_le(old_out[i], row_view(x)));
                    assert(row_lt(row_view(x), old_out[j - 1]));
                    lemma_row_le_transitive(old_out[i], row_view(x), old_out[j - 1]);
                } else if i == p {
                    assert(nv[j] == old_out[j - 1]);
                } else {
                    assert(nv[i] == old_out[i - 1] && nv[j] == old_out[j - 1]);
                }
            }
            assert(nv.to_multiset().add(row_views(rest@).to_multiset()) =~= row_views(
                rows@,
            ).to_multiset());
        }
    }
    proof {
        assert(row_views(rest@).to_multiset() =~= vstd::multiset::Multiset::empty());
    }
    out
}

/// In row order, a row of a smaller position comes first.
pub proof fn sorted_rows_follow_positions(s: Seq<RowView>, i: int, j: int)
    requires
        rows_sorted(s),
        0 <= i < s.len(),
        0 <= j < s.len(),
        s[i].0 < s[j].0,
    ensures
        i < j,
{
    if j < i {
        assert(row_le(s[j], s[i]));
    }
}

} // verus!
