//! A value together with a presence bit that is never branched on.

use crate::choice::{Choice, ConditionallySelectable};
use vstd::prelude::*;

verus! {

/// A value that may be absent.  The value is always stored; whether it
/// counts is held in a `Choice`, so that code can carry on with it without
/// revealing whether an earlier step succeeded.
#[derive(Debug)]
pub struct CtOption<T> {
    value: T,
    is_some: Choice,
}

impl<T: Copy> Clone for CtOption<T> {
    fn clone(&self) -> (r: Self)
        ensures
            r == *self,
    {
        *self
    }
}

impl<T: Copy> Copy for CtOption<T> {

}

impl<T> View for CtOption<T> {
    type V = Option<T>;

    closed spec fn view(&self) -> Option<T> {
        if self.is_some@ {
            Some(self.value)
        } else {
            None
        }
    }
}

impl<T> CtOption<T> {
    /// Holds `value`, present exactly when `is_some` is set.
    pub fn new(value: T, is_some: Choice) -> (r: Self)
        ensures
            r@ == (if is_some@ {
                Some(value)
            } else {
                None
            }),
    {
        CtOption { value, is_some }
    }

    /// Set when the value is present.
    pub fn is_some(&self) -> (r: Choice)
        ensures
            r@ == self@.is_some(),
    {
        self.is_some
    }

    /// Set when the value is absent.
    pub fn is_none(&self) -> (r: Choice)
        ensures
            r@ == self@.is_none(),
    {
        self.is_some.not()
    }

    /// The value, which the caller knows to be present.
    pub fn unwrap(self) -> (r: T)
        requires
            self@.is_some(),
        ensures
            self@ == Some(r),
    {
        self.value
    }

    /// The value when it is present, `fallback` otherwise, picked without
    /// branching.
    pub fn unwrap_or(self, fallback: T) -> (r: T) where T: ConditionallySelectable
        ensures
            r == (match self@ {
                Some(v) => v,
                None => fallback,
            }),
    {
        T::conditional_select(&fallback, &self.value, self.is_some)
    }

    /// The value when it is present, what `f` returns otherwise.  `f` is
    /// always run, and the pick does not branch.
    pub fn unwrap_or_else<F: FnOnce() -> T>(self, f: F) -> (r: T) where T: ConditionallySelectable
        requires
            f.requires(()),
        ensures
            match self@ {
                Some(v) => r == v,
                None => f.ensures((), r),
            },
    {
        let fallback = f();
        T::conditional_select(&fallback, &self.value, self.is_some)
    }
}

} // verus!
