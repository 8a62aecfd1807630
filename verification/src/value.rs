//! Values that can be copied and compared by their contents.

use vstd::prelude::*;

verus! {

/// A type whose values are known by what they hold (`deep_view`).
pub trait Plain: DeepView + Sized {
    /// Another value with the same contents.
    fn copy(&self) -> (copied: Self)
        ensures
            copied.deep_view() == self.deep_view(),
    ;

    /// Whether two values hold the same.
    fn same(&self, other: &Self) -> (equal: bool)
        ensures
            equal == (self.deep_view() == other.deep_view()),
    ;
}

/// What a result holds, in terms of the contents of its value or of its error.
pub open spec fn seen<T: DeepView, E: DeepView>(result: Result<T, E>) -> Result<T::V, E::V> {
    match result {
        Ok(value) => Ok(value.deep_view()),
        Err(error) => Err(error.deep_view()),
    }
}

impl Plain for bool {
    fn copy(&self) -> (copied: Self) {
        *self
    }

    fn same(&self, other: &Self) -> (equal: bool) {
        *self == *other
    }
}

impl Plain for () {
    fn copy(&self) -> (copied: Self) {
    }

    fn same(&self, other: &Self) -> (equal: bool) {
        true
    }
}

impl Plain for u16 {
    fn copy(&self) -> (copied: Self) {
        *self
    }

    fn same(&self, other: &Self) -> (equal: bool) {
        *self == *other
    }
}

impl Plain for i16 {
    fn copy(&self) -> (copied: Self) {
        *self
    }

    fn same(&self, other: &Self) -> (equal: bool) {
        *self == *other
    }
}

impl Plain for u64 {
    fn copy(&self) -> (copied: Self) {
        *self
    }

    fn same(&self, other: &Self) -> (equal: bool) {
        *self == *other
    }
}

impl Plain for String {
    fn copy(&self) -> (copied: Self) {
        self.clone()
    }

    fn same(&self, other: &Self) -> (equal: bool) {
        *self == *other
    }
}

impl<T: Plain> Plain for Option<T> {
    fn copy(&self) -> (copied: Self) {
        match self {
            Some(value) => Some(value.copy()),
            None => None,
        }
    }

    fn same(&self, other: &Self) -> (equal: bool) {
        match (self, other) {
            (Some(left), Some(right)) => left.same(right),
            (None, None) => true,
            _ => false,
        }
    }
}

impl<T: Plain> Plain for Vec<T> {
    fn copy(&self) -> (copied: Self) {
        let mut copied: Vec<T> = Vec::new();
        let mut i: usize = 0;
        while i < self.len()
            invariant
                i <= self@.len(),
                copied@.len() == i,
                forall|k: int| 0 <= k < i ==> copied@[k].deep_view() == #[trigger] self@[k].deep_view(),
            decreases self@.len() - i,
        {
            copied.push(self[i].copy());
            i += 1;
        }
        assert(copied.deep_view() =~= self.deep_view());
        copied
    }

    fn same(&self, other: &Self) -> (equal: bool) {
        if self.len() != other.len() {
            assert(self.deep_view().len() != other.deep_view().len());
            return false;
        }
        let mut i: usize = 0;
        while i < self.len()
            invariant
                i <= self@.len(),
                self@.len() == other@.len(),
                forall|k: int| 0 <= k < i ==> other@[k].deep_view() == #[trigger] self@[k].deep_view(),
            decreases self@.len() - i,
        {
            if !self[i].same(&other[i]) {
                assert(self.deep_view()[i as int] != other.deep_view()[i as int]);
                return false;
            }
            i += 1;
        }
        assert(self.deep_view() =~= other.deep_view());
        true
    }
}

impl<A: Plain, B: Plain> Plain for (A, B) {
    fn copy(&self) -> (copied: Self) {
        (self.0.copy(), self.1.copy())
    }

    fn same(&self, other: &Self) -> (equal: bool) {
        self.0.same(&other.0) && self.1.same(&other.1)
    }
}

} // verus!
