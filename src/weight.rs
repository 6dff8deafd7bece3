use vstd::prelude::*;

verus! {

/// Costs of the edit operations on an element type.
///
/// Each executable method returns the value of its spec counterpart, so the
/// distance can be stated over the spec functions alone. The spec functions
/// default to the uniform model: adding and removing cost one, substituting
/// costs nothing between equal values and otherwise the dearer of removing
/// the one and adding the other. An impl with other costs states them by
/// overriding the spec functions.
pub trait EditWeight: Sized {
    /// Cost of adding this item to a sequence.
    open spec fn spec_add_cost(&self) -> nat {
        1
    }

    /// Cost of removing this item from a sequence.
    open spec fn spec_rm_cost(&self) -> nat {
        1
    }

    /// Cost of substituting `other` for this item.
    open spec fn spec_sub_cost(&self, other: &Self) -> nat {
        if *self == *other {
            0
        } else if self.spec_rm_cost() >= other.spec_add_cost() {
            self.spec_rm_cost()
        } else {
            other.spec_add_cost()
        }
    }

    /// Cost of adding this item to a sequence
    fn add_cost(&self) -> (r: usize)
        ensures
            r as nat == self.spec_add_cost(),
    ;

    /// Cost of removing this item from a sequence
    fn rm_cost(&self) -> (r: usize)
        ensures
            r as nat == self.spec_rm_cost(),
    ;

    /// Cost of substituting `other` for this item.
    /// Note: edit distance is only well-defined when
    /// `self.sub_cost(&self) == 0`
    fn sub_cost(&self, other: &Self) -> (r: usize)
        ensures
            r as nat == self.spec_sub_cost(other),
    ;
}

impl EditWeight for u8 {
    open spec fn spec_add_cost(&self) -> nat {
        1
    }

    open spec fn spec_rm_cost(&self) -> nat {
        1
    }

    open spec fn spec_sub_cost(&self, other: &Self) -> nat {
        if *self == *other {
            0
        } else {
            1
        }
    }

    fn add_cost(&self) -> (r: usize) {
        1
    }

    fn rm_cost(&self) -> (r: usize) {
        1
    }

    fn sub_cost(&self, other: &Self) -> (r: usize) {
        if *self == *other {
            0
        } else {
            1
        }
    }
}

/// Relies on `<str as PartialEq>::eq`: two string slices compare equal
/// exactly when they hold the same characters.
#[verifier::external_body]
fn same_text(a: &str, b: &str) -> (r: bool)
    ensures
        r == (a@ == b@),
{
    a == b
}

impl<'a> EditWeight for &'a str {
    open spec fn spec_add_cost(&self) -> nat {
        1
    }

    open spec fn spec_rm_cost(&self) -> nat {
        1
    }

    open spec fn spec_sub_cost(&self, other: &Self) -> nat {
        if (*self)@ == (*other)@ {
            0
        } else {
            1
        }
    }

    fn add_cost(&self) -> (r: usize) {
        1
    }

    fn rm_cost(&self) -> (r: usize) {
        1
    }

    fn sub_cost(&self, other: &Self) -> (r: usize) {
        if same_text(*self, *other) {
            0
        } else {
            1
        }
    }
}

} // verus!
