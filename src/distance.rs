use vstd::prelude::*;
use vstd::std_specs::cmp::PartialEqSpec;

use crate::model::{
    add_total, costs_fit, distance_of, edit_cost, lemma_add_total_prefix, lemma_edit_cost_le_totals,
    lemma_rm_total_prefix, min3, rm_total, same_elements,
};
use crate::weight::EditWeight;

verus! {

// The table is walked row by row along the `outer` sequence, each row
// spanning the `inner` sequence. When `outer` is the source of the edit its
// elements are removed and `inner`'s are added; otherwise the roles swap.

spec fn outer_step<T: EditWeight>(o: T, outer_is_source: bool) -> nat {
    if outer_is_source {
        o.spec_rm_cost()
    } else {
        o.spec_add_cost()
    }
}

spec fn inner_step<T: EditWeight>(x: T, outer_is_source: bool) -> nat {
    if outer_is_source {
        x.spec_add_cost()
    } else {
        x.spec_rm_cost()
    }
}

spec fn pair_step<T: EditWeight>(o: T, x: T, outer_is_source: bool) -> nat {
    if outer_is_source {
        o.spec_sub_cost(&x)
    } else {
        x.spec_sub_cost(&o)
    }
}

spec fn outer_total<T: EditWeight>(s: Seq<T>, outer_is_source: bool) -> nat {
    if outer_is_source {
        rm_total(s)
    } else {
        add_total(s)
    }
}

spec fn inner_total<T: EditWeight>(s: Seq<T>, outer_is_source: bool) -> nat {
    if outer_is_source {
        add_total(s)
    } else {
        rm_total(s)
    }
}

/// Cell `(i, j)` of the table: the edit cost between the first `i` elements
/// of `outer` and the first `j` elements of `inner`.
spec fn cell<T: EditWeight>(
    outer: Seq<T>,
    inner: Seq<T>,
    outer_is_source: bool,
    i: int,
    j: int,
) -> nat {
    if outer_is_source {
        edit_cost(outer.take(i), inner.take(j))
    } else {
        edit_cost(inner.take(j), outer.take(i))
    }
}

proof fn lemma_total_prefixes<T: EditWeight>(s: Seq<T>, i: int)
    requires
        0 <= i <= s.len(),
    ensures
        add_total(s.take(i)) <= add_total(s),
        rm_total(s.take(i)) <= rm_total(s),
        i < s.len() ==> add_total(s.take(i + 1)) == add_total(s.take(i)) + s[i].spec_add_cost(),
        i < s.len() ==> rm_total(s.take(i + 1)) == rm_total(s.take(i)) + s[i].spec_rm_cost(),
{
    lemma_add_total_prefix(s, i);
    lemma_rm_total_prefix(s, i);
}

proof fn lemma_cell_edges<T: EditWeight>(
    outer: Seq<T>,
    inner: Seq<T>,
    outer_is_source: bool,
    i: int,
    j: int,
)
    requires
        0 <= i <= outer.len(),
        0 <= j <= inner.len(),
    ensures
        cell(outer, inner, outer_is_source, i, 0) == outer_total(outer.take(i), outer_is_source),
        cell(outer, inner, outer_is_source, 0, j) == inner_total(inner.take(j), outer_is_source),
{
    let e = Seq::<T>::empty();
    assert(outer.take(0) =~= e);
    assert(inner.take(0) =~= e);
    assert(add_total(e) == 0);
    assert(rm_total(e) == 0);
}

proof fn lemma_cell_step<T: EditWeight>(
    outer: Seq<T>,
    inner: Seq<T>,
    outer_is_source: bool,
    i: int,
    j: int,
)
    requires
        0 <= i < outer.len(),
        0 <= j < inner.len(),
    ensures
        cell(outer, inner, outer_is_source, i + 1, j + 1) == min3(
            cell(outer, inner, outer_is_source, i, j + 1) + outer_step(outer[i], outer_is_source),
            cell(outer, inner, outer_is_source, i + 1, j) + inner_step(inner[j], outer_is_source),
            cell(outer, inner, outer_is_source, i, j) + pair_step(
                outer[i],
                inner[j],
                outer_is_source,
            ),
        ),
{
    let a = outer.take(i + 1);
    let b = inner.take(j + 1);
    assert(a.drop_last() =~= outer.take(i));
    assert(b.drop_last() =~= inner.take(j));
    assert(a.last() == outer[i]);
    assert(b.last() == inner[j]);
}

proof fn lemma_cell_bound<T: EditWeight>(
    outer: Seq<T>,
    inner: Seq<T>,
    outer_is_source: bool,
    i: int,
    j: int,
)
    requires
        0 <= i <= outer.len(),
        0 <= j <= inner.len(),
    ensures
        cell(outer, inner, outer_is_source, i, j) <= outer_total(outer.take(i), outer_is_source)
            + inner_total(inner.take(j), outer_is_source),
{
    if outer_is_source {
        lemma_edit_cost_le_totals(outer.take(i), inner.take(j));
    } else {
        lemma_edit_cost_le_totals(inner.take(j), outer.take(i));
    }
}

/// Runs the rolling-row recurrence with rows spanning `inner`, keeping two
/// row buffers of `inner.len()` cells plus the first cell of each row.
fn rolling_cost<T: EditWeight>(outer: &[T], inner: &[T], outer_is_source: bool) -> (r: usize)
    requires
        outer_is_source ==> costs_fit(outer@, inner@),
        !outer_is_source ==> costs_fit(inner@, outer@),
    ensures
        r == cell(outer@, inner@, outer_is_source, outer@.len() as int, inner@.len() as int),
{
    let m = outer.len();
    let n = inner.len();
    let ghost f = outer_is_source;
    let ghost bound = outer_total(outer@, f) + inner_total(inner@, f);
    assert(bound <= usize::MAX);
    assert forall|i: int, j: int| 0 <= i < m && 0 <= j < n implies bound + #[trigger] pair_step(
        outer@[i],
        inner@[j],
        f,
    ) <= usize::MAX by {
        if f {
            assert(rm_total(outer@) + add_total(inner@) + outer@[i].spec_sub_cost(&inner@[j])
                <= usize::MAX);
        } else {
            assert(rm_total(inner@) + add_total(outer@) + inner@[j].spec_sub_cost(&outer@[i])
                <= usize::MAX);
        }
    }

    // First row: `inner`'s prefixes against the empty prefix of `outer`.
    let mut prev: Vec<usize> = Vec::with_capacity(n);
    let mut cur: Vec<usize> = Vec::with_capacity(n);
    let mut acc: usize = 0;
    let mut j: usize = 0;
    while j < n
        invariant
            j <= n,
            n == inner@.len(),
            prev@.len() == j,
            cur@.len() == j,
            f == outer_is_source,
            acc == inner_total(inner@.take(j as int), f),
            bound == outer_total(outer@, f) + inner_total(inner@, f),
            bound <= usize::MAX,
            forall|k: int| 0 <= k < j ==> prev@[k] == cell(outer@, inner@, f, 0, k + 1),
        decreases n - j,
    {
        proof {
            lemma_total_prefixes(inner@, j as int);
            lemma_total_prefixes(inner@, j + 1);
            lemma_cell_edges(outer@, inner@, f, 0, j + 1);
        }
        let step = if outer_is_source {
            inner[j].add_cost()
        } else {
            inner[j].rm_cost()
        };
        acc = acc + step;
        prev.push(acc);
        cur.push(0);
        j = j + 1;
    }

    let mut prev_edge: usize = 0;
    proof {
        lemma_cell_edges(outer@, inner@, f, 0, 0);
        lemma_total_prefixes(outer@, 0);
    }
    let mut i: usize = 0;
    while i < m
        invariant
            i <= m,
            m == outer@.len(),
            n == inner@.len(),
            prev@.len() == n,
            cur@.len() == n,
            bound == outer_total(outer@, f) + inner_total(inner@, f),
            bound <= usize::MAX,
            forall|a: int, b: int|
                0 <= a < m && 0 <= b < n ==> bound + #[trigger] pair_step(outer@[a], inner@[b], f)
                    <= usize::MAX,
            f == outer_is_source,
            prev_edge == cell(outer@, inner@, f, i as int, 0),
            forall|k: int| 0 <= k < n ==> prev@[k] == cell(outer@, inner@, f, i as int, k + 1),
        decreases m - i,
    {
        let o = &outer[i];
        proof {
            lemma_cell_edges(outer@, inner@, f, i as int, 0);
            lemma_cell_edges(outer@, inner@, f, i + 1, 0);
            lemma_total_prefixes(outer@, i as int);
            lemma_total_prefixes(outer@, i + 1);
        }
        let o_step = if outer_is_source {
            o.rm_cost()
        } else {
            o.add_cost()
        };
        let cur_edge = prev_edge + o_step;
        let mut j: usize = 0;
        while j < n
            invariant
                i < m,
                j <= n,
                m == outer@.len(),
                n == inner@.len(),
                prev@.len() == n,
                cur@.len() == n,
                bound == outer_total(outer@, f) + inner_total(inner@, f),
                bound <= usize::MAX,
                forall|a: int, b: int|
                    0 <= a < m && 0 <= b < n ==> bound + #[trigger] pair_step(outer@[a], inner@[b], f)
                        <= usize::MAX,
                f == outer_is_source,
                *o == outer@[i as int],
                o_step == outer_step(outer@[i as int], f),
                prev_edge == cell(outer@, inner@, f, i as int, 0),
                cur_edge == cell(outer@, inner@, f, i + 1, 0),
                forall|k: int| 0 <= k < n ==> prev@[k] == cell(outer@, inner@, f, i as int, k + 1),
                forall|k: int| 0 <= k < j ==> cur@[k] == cell(outer@, inner@, f, i + 1, k + 1),
            decreases n - j,
        {
            let x = &inner[j];
            let diag = if j == 0 {
                prev_edge
            } else {
                prev[j - 1]
            };
            let left = if j == 0 {
                cur_edge
            } else {
                cur[j - 1]
            };
            let up = prev[j];
            proof {
                lemma_cell_step(outer@, inner@, f, i as int, j as int);
                lemma_cell_bound(outer@, inner@, f, i as int, j as int);
                lemma_cell_bound(outer@, inner@, f, i as int, j + 1);
                lemma_cell_bound(outer@, inner@, f, i + 1, j as int);
                lemma_total_prefixes(outer@, i as int);
                lemma_total_prefixes(outer@, i + 1);
                lemma_total_prefixes(inner@, j as int);
                lemma_total_prefixes(inner@, j + 1);
                assert(bound + pair_step(outer@[i as int], inner@[j as int], f) <= usize::MAX);
            }
            let x_step = if outer_is_source {
                x.add_cost()
            } else {
                x.rm_cost()
            };
            let pair = if outer_is_source {
                o.sub_cost(x)
            } else {
                x.sub_cost(o)
            };
            let via_up = up + o_step;
            let via_left = left + x_step;
            let via_diag = diag + pair;
            let mut best = if via_up <= via_left {
                via_up
            } else {
                via_left
            };
            if via_diag < best {
                best = via_diag;
            }
            cur[j] = best;
            j = j + 1;
        }
        let tmp = prev;
        prev = cur;
        cur = tmp;
        prev_edge = cur_edge;
        i = i + 1;
    }
    if n == 0 {
        prev_edge
    } else {
        prev[n - 1]
    }
}

/// Whether `a` and `b` have the same length and are pairwise equal under `==`.
fn elements_equal<T: PartialEq>(a: &[T], b: &[T]) -> (r: bool)
    requires
        T::obeys_eq_spec(),
    ensures
        r == same_elements(a@, b@),
{
    if a.len() != b.len() {
        return false;
    }
    let mut i: usize = 0;
    while i < a.len()
        invariant
            T::obeys_eq_spec(),
            a@.len() == b@.len(),
            i <= a@.len(),
            forall|k: int| 0 <= k < i ==> #[trigger] a@[k].eq_spec(&b@[k]),
        decreases a@.len() - i,
    {
        if !(a[i] == b[i]) {
            return false;
        }
        i = i + 1;
    }
    true
}

/// Total cost of adding every element of `s`.
fn add_sum<T: EditWeight>(s: &[T]) -> (r: usize)
    requires
        add_total(s@) <= usize::MAX,
    ensures
        r == add_total(s@),
{
    let mut acc: usize = 0;
    let mut i: usize = 0;
    while i < s.len()
        invariant
            i <= s@.len(),
            add_total(s@) <= usize::MAX,
            acc == add_total(s@.take(i as int)),
        decreases s@.len() - i,
    {
        proof {
            lemma_total_prefixes(s@, i + 1);
            lemma_total_prefixes(s@, i as int);
        }
        acc = acc + s[i].add_cost();
        i = i + 1;
    }
    assert(s@.take(i as int) =~= s@);
    acc
}

/// Total cost of removing every element of `s`.
fn rm_sum<T: EditWeight>(s: &[T]) -> (r: usize)
    requires
        rm_total(s@) <= usize::MAX,
    ensures
        r == rm_total(s@),
{
    let mut acc: usize = 0;
    let mut i: usize = 0;
    while i < s.len()
        invariant
            i <= s@.len(),
            rm_total(s@) <= usize::MAX,
            acc == rm_total(s@.take(i as int)),
        decreases s@.len() - i,
    {
        proof {
            lemma_total_prefixes(s@, i + 1);
            lemma_total_prefixes(s@, i as int);
        }
        acc = acc + s[i].rm_cost();
        i = i + 1;
    }
    assert(s@.take(i as int) =~= s@);
    acc
}

/// Compute the Levenshtein distance between two sequences: the least total
/// cost of the removals, additions and substitutions that turn `a` into `b`,
/// priced by the elements' `EditWeight`.
///
/// Sequences equal element by element are at distance zero without further
/// work. Otherwise the cost table is computed row by row, each row spanning
/// the shorter sequence, so only two rows of `min(a.len(), b.len())` cells
/// are kept.
///
/// `==` on the elements must behave as its spec says, and every sum formed
/// along the way must fit in a `usize` (see `costs_fit`): costs add up with
/// plain addition.
pub fn distance<T: EditWeight + PartialEq>(a: &[T], b: &[T]) -> (r: usize)
    requires
        T::obeys_eq_spec(),
        costs_fit(a@, b@),
    ensures
        r == distance_of(a@, b@),
{
    if elements_equal(a, b) {
        return 0;
    }
    if a.len() == 0 {
        return add_sum(b);
    }
    if b.len() == 0 {
        return rm_sum(a);
    }
    assert(a@.take(a@.len() as int) =~= a@);
    assert(b@.take(b@.len() as int) =~= b@);
    if a.len() <= b.len() {
        rolling_cost(b, a, false)
    } else {
        rolling_cost(a, b, true)
    }
}

} // verus!
