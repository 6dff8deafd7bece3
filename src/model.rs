use vstd::prelude::*;

use vstd::std_specs::cmp::PartialEqSpec;

use crate::weight::EditWeight;

verus! {

/// Sum of the cost of adding each element of `s`.
pub open spec fn add_total<T: EditWeight>(s: Seq<T>) -> nat
    decreases s.len(),
{
    if s.len() == 0 {
        0
    } else {
        add_total(s.drop_last()) + s.last().spec_add_cost()
    }
}

/// Sum of the cost of removing each element of `s`.
pub open spec fn rm_total<T: EditWeight>(s: Seq<T>) -> nat
    decreases s.len(),
{
    if s.len() == 0 {
        0
    } else {
        rm_total(s.drop_last()) + s.last().spec_rm_cost()
    }
}

/// The least of three costs.
pub open spec fn min3(x: nat, y: nat, z: nat) -> nat {
    let m = if x <= y {
        x
    } else {
        y
    };
    if m <= z {
        m
    } else {
        z
    }
}

/// Least total cost of removals, additions and substitutions that turn `a`
/// into `b`: the last element of `a` is removed, the last element of `b` is
/// added, or the one is substituted by the other, whichever is cheapest.
pub open spec fn edit_cost<T: EditWeight>(a: Seq<T>, b: Seq<T>) -> nat
    decreases a.len() + b.len(),
{
    if a.len() == 0 {
        add_total(b)
    } else if b.len() == 0 {
        rm_total(a)
    } else {
        let x = a.last();
        let y = b.last();
        min3(
            edit_cost(a.drop_last(), b) + x.spec_rm_cost(),
            edit_cost(a, b.drop_last()) + y.spec_add_cost(),
            edit_cost(a.drop_last(), b.drop_last()) + x.spec_sub_cost(&y),
        )
    }
}

/// `a` and `b` have the same length and are pairwise equal under `==`.
pub open spec fn same_elements<T: PartialEq>(a: Seq<T>, b: Seq<T>) -> bool {
    &&& a.len() == b.len()
    &&& forall|i: int| 0 <= i < a.len() ==> #[trigger] a[i].eq_spec(&b[i])
}

/// What `distance` returns: zero for sequences equal element by element,
/// the least edit cost otherwise.
pub open spec fn distance_of<T: EditWeight + PartialEq>(a: Seq<T>, b: Seq<T>) -> nat {
    if same_elements(a, b) {
        0
    } else {
        edit_cost(a, b)
    }
}

/// Every sum the computation of `edit_cost(a, b)` forms fits in a `usize`:
/// removing all of `a` and adding all of `b`, plus any one substitution.
pub open spec fn costs_fit<T: EditWeight>(a: Seq<T>, b: Seq<T>) -> bool {
    &&& rm_total(a) + add_total(b) <= usize::MAX
    &&& forall|i: int, j: int|
        0 <= i < a.len() && 0 <= j < b.len() ==> rm_total(a) + add_total(b)
            + #[trigger] a[i].spec_sub_cost(&b[j]) <= usize::MAX
}

/// The substitution cost vanishes on elements that are the same value or
/// that `==` finds equal.
pub open spec fn zero_on_equal<T: EditWeight + PartialEq>() -> bool {
    forall|x: T, y: T| (x == y || x.eq_spec(&y)) ==> #[trigger] x.spec_sub_cost(&y) == 0
}

/// Removing everything from `a` and adding everything of `b` is one way
/// of editing, so it bounds the least cost.
pub proof fn lemma_edit_cost_le_totals<T: EditWeight>(a: Seq<T>, b: Seq<T>)
    ensures
        edit_cost(a, b) <= rm_total(a) + add_total(b),
    decreases a.len() + b.len(),
{
    if a.len() > 0 && b.len() > 0 {
        lemma_edit_cost_le_totals(a.drop_last(), b);
    }
}

/// Adding a prefix costs no more than adding the whole, and each element
/// adds its own cost to the prefix before it.
pub proof fn lemma_add_total_prefix<T: EditWeight>(s: Seq<T>, i: int)
    requires
        0 <= i <= s.len(),
    ensures
        add_total(s.take(i)) <= add_total(s),
        i < s.len() ==> add_total(s.take(i + 1)) == add_total(s.take(i)) + s[i].spec_add_cost(),
    decreases s.len(),
{
    if i < s.len() {
        assert(s.take(i + 1).drop_last() =~= s.take(i));
        lemma_add_total_prefix(s.drop_last(), i);
        assert(s.drop_last().take(i) =~= s.take(i));
    } else {
        assert(s.take(i) =~= s);
    }
}

/// Removing a prefix costs no more than removing the whole, and each element
/// adds its own cost to the prefix before it.
pub proof fn lemma_rm_total_prefix<T: EditWeight>(s: Seq<T>, i: int)
    requires
        0 <= i <= s.len(),
    ensures
        rm_total(s.take(i)) <= rm_total(s),
        i < s.len() ==> rm_total(s.take(i + 1)) == rm_total(s.take(i)) + s[i].spec_rm_cost(),
    decreases s.len(),
{
    if i < s.len() {
        assert(s.take(i + 1).drop_last() =~= s.take(i));
        lemma_rm_total_prefix(s.drop_last(), i);
        assert(s.drop_last().take(i) =~= s.take(i));
    } else {
        assert(s.take(i) =~= s);
    }
}

} // verus!
