use vstd::prelude::*;
use vstd::std_specs::cmp::PartialEqSpec;

use crate::model::{
    add_total, distance_of, edit_cost, lemma_edit_cost_le_totals, rm_total, same_elements,
    zero_on_equal,
};
use crate::weight::EditWeight;

verus! {

/// Adding and removing cost the same for every element, and substituting
/// `x` by `y` costs what substituting `y` by `x` does.
pub open spec fn symmetric_weights<T: EditWeight>() -> bool {
    &&& forall|t: T| #[trigger] t.spec_add_cost() == t.spec_rm_cost()
    &&& forall|x: T, y: T| #[trigger] x.spec_sub_cost(&y) == y.spec_sub_cost(&x)
}

/// The uniform model: adding or removing any element costs one, and
/// substituting costs one between different values and nothing otherwise.
pub open spec fn unit_weights<T: EditWeight + PartialEq>() -> bool {
    &&& forall|t: T| #[trigger] t.spec_add_cost() == 1
    &&& forall|t: T| #[trigger] t.spec_rm_cost() == 1
    &&& forall|x: T, y: T| #[trigger] x.spec_sub_cost(&y) == if x == y {
        0nat
    } else {
        1nat
    }
    &&& zero_on_equal::<T>()
}

/// Bytes are priced by the uniform model.
pub proof fn lemma_u8_unit_weights()
    ensures
        unit_weights::<u8>(),
        <u8 as PartialEqSpec>::obeys_eq_spec(),
{
}

proof fn lemma_same_elements_cost_nothing<T: EditWeight + PartialEq>(a: Seq<T>, b: Seq<T>)
    requires
        zero_on_equal::<T>(),
        same_elements(a, b),
    ensures
        edit_cost(a, b) == 0,
    decreases a.len(),
{
    if a.len() > 0 {
        let n = a.len() - 1;
        assert(a[n].eq_spec(&b[n]));
        assert(a.last().spec_sub_cost(&b.last()) == 0);
        assert(same_elements(a.drop_last(), b.drop_last())) by {
            assert forall|i: int| 0 <= i < a.drop_last().len() implies #[trigger] a.drop_last()[i].eq_spec(
                &b.drop_last()[i],
            ) by {
                assert(a[i].eq_spec(&b[i]));
            }
        }
        lemma_same_elements_cost_nothing(a.drop_last(), b.drop_last());
    }
}

/// Under a model whose substitution cost vanishes on equal elements, the
/// shortcut for sequences equal element by element gives the same value as
/// the full recurrence.
pub proof fn lemma_shortcut_agrees<T: EditWeight + PartialEq>(a: Seq<T>, b: Seq<T>)
    requires
        zero_on_equal::<T>(),
    ensures
        distance_of(a, b) == edit_cost(a, b),
{
    if same_elements(a, b) {
        lemma_same_elements_cost_nothing(a, b);
    }
}

proof fn lemma_edit_cost_self<T: EditWeight + PartialEq>(x: Seq<T>)
    requires
        zero_on_equal::<T>(),
    ensures
        edit_cost(x, x) == 0,
    decreases x.len(),
{
    if x.len() > 0 {
        assert(x.last().spec_sub_cost(&x.last()) == 0);
        lemma_edit_cost_self(x.drop_last());
    }
}

/// Identity: a sequence is at distance zero from itself.
pub proof fn lemma_identity<T: EditWeight + PartialEq>(x: Seq<T>)
    requires
        zero_on_equal::<T>(),
    ensures
        distance_of(x, x) == 0,
{
    lemma_edit_cost_self(x);
}

proof fn lemma_totals_agree<T: EditWeight>(s: Seq<T>)
    requires
        symmetric_weights::<T>(),
    ensures
        add_total(s) == rm_total(s),
    decreases s.len(),
{
    if s.len() > 0 {
        assert(s.last().spec_add_cost() == s.last().spec_rm_cost());
        lemma_totals_agree(s.drop_last());
    }
}

proof fn lemma_edit_cost_symmetric<T: EditWeight>(a: Seq<T>, b: Seq<T>)
    requires
        symmetric_weights::<T>(),
    ensures
        edit_cost(a, b) == edit_cost(b, a),
    decreases a.len() + b.len(),
{
    if a.len() == 0 || b.len() == 0 {
        lemma_totals_agree(a);
        lemma_totals_agree(b);
    } else {
        lemma_edit_cost_symmetric(a.drop_last(), b);
        lemma_edit_cost_symmetric(a, b.drop_last());
        lemma_edit_cost_symmetric(a.drop_last(), b.drop_last());
        assert(a.last().spec_add_cost() == a.last().spec_rm_cost());
        assert(b.last().spec_add_cost() == b.last().spec_rm_cost());
        assert(a.last().spec_sub_cost(&b.last()) == b.last().spec_sub_cost(&a.last()));
    }
}

/// Symmetry: with adding and removing priced alike and substitution priced
/// the same both ways, the distance from `a` to `b` is the distance from `b`
/// to `a`.
pub proof fn lemma_symmetry<T: EditWeight + PartialEq>(a: Seq<T>, b: Seq<T>)
    requires
        symmetric_weights::<T>(),
        zero_on_equal::<T>(),
    ensures
        distance_of(a, b) == distance_of(b, a),
{
    lemma_shortcut_agrees(a, b);
    lemma_shortcut_agrees(b, a);
    lemma_edit_cost_symmetric(a, b);
}

/// Empty boundary: from the empty sequence the distance is the cost of adding
/// every element; to it, the cost of removing every element.
pub proof fn lemma_empty_boundary<T: EditWeight + PartialEq>(a: Seq<T>, b: Seq<T>)
    ensures
        distance_of(Seq::empty(), b) == add_total(b),
        distance_of(a, Seq::empty()) == rm_total(a),
{
    let e = Seq::<T>::empty();
    assert(add_total(e) == 0);
    assert(rm_total(e) == 0);
}

/// Single substitution: between one-element sequences the distance is zero
/// when the elements are equal under `==`, and otherwise the cost of
/// substituting one by the other, where that is no dearer than removing the
/// first and adding the second.
pub proof fn lemma_single_substitution<T: EditWeight + PartialEq>(x: T, y: T)
    requires
        !x.eq_spec(&y) ==> x.spec_sub_cost(&y) <= x.spec_rm_cost() + y.spec_add_cost(),
    ensures
        distance_of(seq![x], seq![y]) == if x.eq_spec(&y) {
            0
        } else {
            x.spec_sub_cost(&y)
        },
{
    let a = seq![x];
    let b = seq![y];
    let e = Seq::<T>::empty();
    assert(a.drop_last() =~= e);
    assert(b.drop_last() =~= e);
    assert(same_elements(a, b) == x.eq_spec(&y)) by {
        if x.eq_spec(&y) {
            assert forall|i: int| 0 <= i < a.len() implies #[trigger] a[i].eq_spec(&b[i]) by {
                assert(a[i] == x);
                assert(b[i] == y);
            }
        } else {
            assert(a[0] == x);
            assert(b[0] == y);
        }
    }
    assert(a.last() == x);
    assert(b.last() == y);
    assert(add_total(e) == 0);
    assert(rm_total(e) == 0);
    assert(edit_cost(e, e) == 0);
    assert(edit_cost(e, b) == y.spec_add_cost());
    assert(edit_cost(a, e) == x.spec_rm_cost());
}

proof fn lemma_remove_last<T: EditWeight>(a: Seq<T>, c: Seq<T>)
    requires
        a.len() > 0,
    ensures
        edit_cost(a, c) <= edit_cost(a.drop_last(), c) + a.last().spec_rm_cost(),
{
    if c.len() == 0 && a.drop_last().len() == 0 {
        assert(add_total(c) == 0);
        assert(rm_total(a.drop_last()) == 0);
    }
}

proof fn lemma_add_last<T: EditWeight>(a: Seq<T>, c: Seq<T>)
    requires
        c.len() > 0,
    ensures
        edit_cost(a, c) <= edit_cost(a, c.drop_last()) + c.last().spec_add_cost(),
{
    if a.len() == 0 {
    } else if c.drop_last().len() == 0 {
        assert(rm_total(a) == edit_cost(a, c.drop_last()));
    }
}

proof fn lemma_edit_cost_triangle<T: EditWeight + PartialEq>(a: Seq<T>, b: Seq<T>, c: Seq<T>)
    requires
        unit_weights::<T>(),
    ensures
        edit_cost(a, c) <= edit_cost(a, b) + edit_cost(b, c),
    decreases a.len() + b.len() + c.len(),
{
    if b.len() == 0 {
        lemma_edit_cost_le_totals(a, c);
        if a.len() == 0 {
            assert(rm_total(a) == 0);
        }
        if c.len() == 0 {
            assert(add_total(c) == 0);
        }
        return;
    }
    let b1 = b.drop_last();
    let beta = b.last();
    let d_ab = edit_cost(a, b);
    let d_bc = edit_cost(b, c);
    if a.len() > 0 && d_ab == edit_cost(a.drop_last(), b) + a.last().spec_rm_cost() {
        lemma_edit_cost_triangle(a.drop_last(), b, c);
        lemma_remove_last(a, c);
    } else if c.len() > 0 && d_bc == edit_cost(b, c.drop_last()) + c.last().spec_add_cost() {
        lemma_edit_cost_triangle(a, b, c.drop_last());
        lemma_add_last(a, c);
    } else {
        lemma_edit_cost_triangle(a, b1, c);
        let ins = a.len() == 0 || d_ab == edit_cost(a, b1) + beta.spec_add_cost();
        let del = c.len() == 0 || d_bc == edit_cost(b1, c) + beta.spec_rm_cost();
        if ins && del {
            if c.len() == 0 {
                assert(d_bc == rm_total(b));
            }
            if a.len() == 0 {
                assert(d_ab == add_total(b));
            }
        } else if ins {
            // `b`'s last element is added on the way from `a`, then
            // substituted by `c`'s last element.
            lemma_add_last(b1, c);
            if a.len() == 0 {
                assert(d_ab == add_total(b));
            }
        } else if del {
            // `a`'s last element is substituted by `b`'s, which is then removed.
            lemma_remove_last(a, b1);
            if c.len() == 0 {
                assert(d_bc == rm_total(b));
            }
        } else {
            let a1 = a.drop_last();
            let c1 = c.drop_last();
            lemma_edit_cost_triangle(a1, b1, c1);
            let alpha = a.last();
            let gamma = c.last();
            assert(alpha.spec_sub_cost(&gamma) <= alpha.spec_sub_cost(&beta) + beta.spec_sub_cost(
                &gamma,
            ));
        }
    }
}

/// Triangle inequality under the uniform model: going from `a` to `c`
/// never costs more than going through `b`.
pub proof fn lemma_triangle<T: EditWeight + PartialEq>(a: Seq<T>, b: Seq<T>, c: Seq<T>)
    requires
        unit_weights::<T>(),
    ensures
        distance_of(a, c) <= distance_of(a, b) + distance_of(b, c),
{
    lemma_shortcut_agrees(a, b);
    lemma_shortcut_agrees(b, c);
    lemma_shortcut_agrees(a, c);
    lemma_edit_cost_triangle(a, b, c);
}

} // verus!
