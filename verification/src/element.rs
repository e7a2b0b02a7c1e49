//! The capabilities a value must offer to live in a replicated set: an
//! executable equality test that agrees with logical equality, and
//! duplication, since an insertion keeps the value both in the set and in the
//! operation record it emits.

use vstd::prelude::*;

verus! {

/// A value that can be held by a replicated set.
///
/// `same_as` is the executable equality test and must decide logical
/// equality exactly; `duplicate` returns a value equal to the original, so
/// that copies may be shared freely across replicas.
pub trait Element: Sized {
    /// Decide whether two values are equal.
    fn same_as(&self, other: &Self) -> (r: bool)
        ensures
            r <==> *self == *other,
    ;

    /// Produce a copy equal to this value.
    fn duplicate(&self) -> (r: Self)
        ensures
            r == *self,
    ;
}

impl Element for u8 {
    fn same_as(&self, other: &Self) -> bool {
        *self == *other
    }

    fn duplicate(&self) -> Self {
        *self
    }
}

impl Element for u16 {
    fn same_as(&self, other: &Self) -> bool {
        *self == *other
    }

    fn duplicate(&self) -> Self {
        *self
    }
}

impl Element for u32 {
    fn same_as(&self, other: &Self) -> bool {
        *self == *other
    }

    fn duplicate(&self) -> Self {
        *self
    }
}

impl Element for u64 {
    fn same_as(&self, other: &Self) -> bool {
        *self == *other
    }

    fn duplicate(&self) -> Self {
        *self
    }
}

impl Element for usize {
    fn same_as(&self, other: &Self) -> bool {
        *self == *other
    }

    fn duplicate(&self) -> Self {
        *self
    }
}

impl Element for i8 {
    fn same_as(&self, other: &Self) -> bool {
        *self == *other
    }

    fn duplicate(&self) -> Self {
        *self
    }
}

impl Element for i16 {
    fn same_as(&self, other: &Self) -> bool {
        *self == *other
    }

    fn duplicate(&self) -> Self {
        *self
    }
}

impl Element for i32 {
    fn same_as(&self, other: &Self) -> bool {
        *self == *other
    }

    fn duplicate(&self) -> Self {
        *self
    }
}

impl Element for i64 {
    fn same_as(&self, other: &Self) -> bool {
        *self == *other
    }

    fn duplicate(&self) -> Self {
        *self
    }
}

impl Element for isize {
    fn same_as(&self, other: &Self) -> bool {
        *self == *other
    }

    fn duplicate(&self) -> Self {
        *self
    }
}

impl Element for bool {
    fn same_as(&self, other: &Self) -> bool {
        *self == *other
    }

    fn duplicate(&self) -> Self {
        *self
    }
}

impl Element for char {
    fn same_as(&self, other: &Self) -> bool {
        *self == *other
    }

    fn duplicate(&self) -> Self {
        *self
    }
}

} // verus!
