use vstd::prelude::*;
use std::cmp::Ordering;

verus! {

/// A score by a `u16`: a bigger number goes first; between equal numbers
/// the bigger index goes last. A score of 0 keeps its item from being shown.
#[derive(Clone, Copy, Debug)]
pub struct U16Ord {
    pub x: u16,
    pub idx: usize,
}

/// The order of two `U16Ord` scores.
pub open spec fn u16_order(a: U16Ord, b: U16Ord) -> Ordering {
    if a.x < b.x {
        Ordering::Less
    } else if a.x > b.x {
        Ordering::Greater
    } else if a.idx < b.idx {
        Ordering::Greater
    } else if a.idx == b.idx {
        Ordering::Equal
    } else {
        Ordering::Less
    }
}

/// The order read the other way round.
pub open spec fn flipped(o: Ordering) -> Ordering {
    match o {
        Ordering::Less => Ordering::Greater,
        Ordering::Equal => Ordering::Equal,
        Ordering::Greater => Ordering::Less,
    }
}

impl U16Ord {
    /// Whether the item is not to be shown.
    pub fn is_excluded(&self) -> (r: bool)
        ensures
            r == (self.x == 0),
    {
        self.x == 0
    }

    /// Compares by the number, then by the index the other way round.
    pub fn cmp(&self, other: &Self) -> (r: Ordering)
        ensures
            r == u16_order(*self, *other),
    {
        if self.x < other.x {
            Ordering::Less
        } else if self.x > other.x {
            Ordering::Greater
        } else if self.idx < other.idx {
            Ordering::Greater
        } else if self.idx == other.idx {
            Ordering::Equal
        } else {
            Ordering::Less
        }
    }
}

impl PartialEq for U16Ord {
    fn eq(&self, other: &Self) -> (r: bool) {
        self.x == other.x && self.idx == other.idx
    }
}

impl vstd::std_specs::cmp::PartialEqSpecImpl for U16Ord {
    open spec fn obeys_eq_spec() -> bool {
        true
    }

    open spec fn eq_spec(&self, other: &Self) -> bool {
        self.x == other.x && self.idx == other.idx
    }
}

impl PartialOrd for U16Ord {
    fn partial_cmp(&self, other: &Self) -> (r: Option<Ordering>) {
        Some(self.cmp(other))
    }
}

impl vstd::std_specs::cmp::PartialOrdSpecImpl for U16Ord {
    open spec fn obeys_partial_cmp_spec() -> bool {
        true
    }

    open spec fn partial_cmp_spec(&self, other: &Self) -> Option<Ordering> {
        Some(u16_order(*self, *other))
    }
}

/// The order of `U16Ord` scores is total: two scores compare the other way
/// round when swapped, compare equal exactly when they are the same, and
/// the order is transitive.
pub proof fn law_u16_order_total(a: U16Ord, b: U16Ord, c: U16Ord)
    ensures
        u16_order(b, a) == flipped(u16_order(a, b)),
        (u16_order(a, b) == Ordering::Equal) <==> (a.x == b.x && a.idx == b.idx),
        u16_order(a, b) == Ordering::Less && u16_order(b, c) == Ordering::Less ==> u16_order(a, c)
            == Ordering::Less,
{
}

} // verus!
