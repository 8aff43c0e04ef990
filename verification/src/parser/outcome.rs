use vstd::prelude::*;

verus! {

/// What running a parser on an input means, mathematically.
///
/// `Stuck` stands for the inputs on which the executable parser would not
/// return: it panics, or it loops forever (a `many` over a parser that
/// succeeds without consuming anything).
pub enum Outcome<V> {
    /// The parser produced a value and left the given rest of the input.
    Success(V, Seq<char>),
    /// The parser rejected the input with the given message.
    Failure(Seq<char>),
    /// The parser does not return on this input.
    Stuck,
}

/// The exact relation between an executable parse result and its meaning.
pub open spec fn agrees<T: DeepView>(
    r: Result<(T, String), String>,
    o: Outcome<T::V>,
) -> bool {
    match r {
        Ok((v, rest)) => o == Outcome::Success(v.deep_view(), rest@),
        Err(e) => o == Outcome::<T::V>::Failure(e@),
    }
}

} // verus!
