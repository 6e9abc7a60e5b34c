//! The order of fields: integers are ordered among themselves, and a
//! reference is comparable with nothing but itself.

use crate::field::RibField;
use core::cmp::Ordering;
use vstd::prelude::*;
use vstd::std_specs::cmp::PartialOrdSpec;

verus! {

impl vstd::std_specs::cmp::PartialOrdSpecImpl for RibField {
    open spec fn obeys_partial_cmp_spec() -> bool {
        true
    }

    open spec fn partial_cmp_spec(&self, other: &RibField) -> Option<Ordering> {
        match (*self, *other) {
            (RibField::Number(n), RibField::Number(m)) => if n < m {
                Some(Ordering::Less)
            } else if n > m {
                Some(Ordering::Greater)
            } else {
                Some(Ordering::Equal)
            },
            (RibField::Rib(i), RibField::Rib(j)) => if i == j {
                Some(Ordering::Equal)
            } else {
                None
            },
            _ => None,
        }
    }
}

impl PartialOrd for RibField {
    /// Equal fields compare equal; two integers compare as integers; any
    /// other two fields do not compare.
    fn partial_cmp(&self, other: &RibField) -> (r: Option<Ordering>) {
        if *self == *other {
            Some(Ordering::Equal)
        } else {
            match self {
                RibField::Rib(_) => None,
                RibField::Number(n) => match other {
                    RibField::Rib(_) => None,
                    RibField::Number(other_n) => n.partial_cmp(other_n),
                },
            }
        }
    }
}

/// `<` on fields is `less_than`.
pub proof fn lemma_less_than(x: RibField, y: RibField)
    ensures
        x.less_than(y) <==> PartialOrdSpec::partial_cmp_spec(&x, &y) == Some(Ordering::Less),
{
}

impl RibField {
    /// Whether the field is an integer less than the integer in `other`:
    /// `<`, computed.
    pub fn lt_field(&self, other: &RibField) -> (b: bool)
        ensures
            b == self.less_than(*other),
    {
        proof {
            lemma_less_than(*self, *other);
        }
        *self < *other
    }
}

} // verus!
