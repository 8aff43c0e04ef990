use vstd::prelude::*;

use crate::parser::text::string_of_chars;
use crate::parser::traits::Mapper;

verus! {

/// Keeps the first of a pair.
pub struct First;

/// Keeps the second of a pair.
pub struct Second;

/// Replaces any value by `value`.
pub struct Const<T> {
    pub value: T,
}

/// Turns a sequence of characters into a `String`.
pub struct CollectString;

impl<A: DeepView, B: DeepView> Mapper<(A, B)> for First {
    type Out = A;

    open spec fn spec_map(&self, x: (A::V, B::V)) -> A::V {
        x.0
    }

    fn apply(&self, x: (A, B)) -> (y: A) {
        x.0
    }
}

impl<A: DeepView, B: DeepView> Mapper<(A, B)> for Second {
    type Out = B;

    open spec fn spec_map(&self, x: (A::V, B::V)) -> B::V {
        x.1
    }

    fn apply(&self, x: (A, B)) -> (y: B) {
        x.1
    }
}

impl<In: DeepView, T: Copy + DeepView> Mapper<In> for Const<T> {
    type Out = T;

    open spec fn spec_map(&self, x: In::V) -> T::V {
        self.value.deep_view()
    }

    fn apply(&self, x: In) -> (y: T) {
        self.value
    }
}

impl Mapper<Vec<char>> for CollectString {
    type Out = String;

    open spec fn spec_map(&self, x: Seq<char>) -> Seq<char> {
        x
    }

    fn apply(&self, x: Vec<char>) -> (y: String)
        ensures
            y@ == x@,
    {
        assert(x.deep_view() =~= x@);
        string_of_chars(&x)
    }
}

} // verus!
