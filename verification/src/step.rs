//! The outcome of applying one recogniser at one position of the input.

use vstd::prelude::*;

verus! {

/// What a recogniser reports for a position of the input.
#[derive(Debug, PartialEq, Eq)]
pub enum Step<T> {
    /// The production matched; `next` is the position just past it.
    Match { value: T, next: usize },
    /// The production does not apply here; an enclosing alternation goes on
    /// with its next alternative.
    NoMatch,
    /// A numeral that starts at `at` has the right shape but its value lies
    /// outside the integer range. No alternative is tried after this.
    Overflow { at: usize },
}

/// The mathematical counterpart of [`Step`], with unbounded positions.
pub enum SpecStep<V> {
    Match { value: V, next: int },
    NoMatch,
    Overflow { at: int },
}

impl<V> SpecStep<V> {
    /// Ordered choice: `self` unless it is `NoMatch`, else `other`.
    pub open spec fn or(self, other: SpecStep<V>) -> SpecStep<V> {
        if self is NoMatch {
            other
        } else {
            self
        }
    }

    /// The same outcome with `f` applied to the value of a match.
    pub open spec fn map<W>(self, f: spec_fn(V) -> W) -> SpecStep<W> {
        match self {
            SpecStep::Match { value, next } => SpecStep::Match { value: f(value), next },
            SpecStep::NoMatch => SpecStep::NoMatch,
            SpecStep::Overflow { at } => SpecStep::Overflow { at },
        }
    }

    /// Whether the outcome, reached from `pos`, stays inside the input `s`
    /// and moves forward: a match ends after `pos`, and a numeral out of
    /// range starts at or after `pos`.
    pub open spec fn advances(self, s: Seq<char>, pos: int) -> bool {
        match self {
            SpecStep::Match { value: _, next } => pos < next <= s.len(),
            SpecStep::NoMatch => true,
            SpecStep::Overflow { at } => pos <= at < s.len(),
        }
    }
}

impl<T: View> View for Step<T> {
    type V = SpecStep<T::V>;

    open spec fn view(&self) -> SpecStep<T::V> {
        match *self {
            Step::Match { value, next } => SpecStep::Match { value: value@, next: next as int },
            Step::NoMatch => SpecStep::NoMatch,
            Step::Overflow { at } => SpecStep::Overflow { at: at as int },
        }
    }
}

} // verus!
