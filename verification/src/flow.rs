//! What a short-circuiting fold passes between its steps.
use core::ops::ControlFlow;
use vstd::prelude::*;

verus! {

/// The answer of one step of a short-circuiting fold: it either carries an
/// accumulator on to the next step, or it stops the fold and is handed back
/// as it is.
pub trait Flow: Sized {
    /// The accumulator that is carried on.
    type Output;

    /// The accumulator that this answer carries on; `None` if it stops the
    /// fold.
    spec fn carried(&self) -> Option<Self::Output>;

    /// The answer that carries `out` on.
    fn from_output(out: Self::Output) -> (r: Self)
        ensures
            r.carried() == Some(out),
    ;

    /// Takes the answer apart: the accumulator to go on with, or the answer
    /// itself to stop with.
    fn branch(self) -> (r: Result<Self::Output, Self>)
        ensures
            match r {
                Ok(out) => self.carried() == Some(out),
                Err(stop) => self.carried() is None && stop == self,
            },
    ;
}

/// `Some` carries on, `None` stops.
impl<T> Flow for Option<T> {
    type Output = T;

    open spec fn carried(&self) -> Option<T> {
        *self
    }

    fn from_output(out: T) -> (r: Self) {
        Some(out)
    }

    fn branch(self) -> (r: Result<T, Self>) {
        match self {
            Some(out) => Ok(out),
            None => Err(None),
        }
    }
}

/// `Ok` carries on, `Err` stops.
impl<T, E> Flow for Result<T, E> {
    type Output = T;

    open spec fn carried(&self) -> Option<T> {
        match *self {
            Ok(out) => Some(out),
            Err(_) => None,
        }
    }

    fn from_output(out: T) -> (r: Self) {
        Ok(out)
    }

    fn branch(self) -> (r: Result<T, Self>) {
        match self {
            Ok(out) => Ok(out),
            Err(e) => Err(Err(e)),
        }
    }
}

/// `Continue` carries on, `Break` stops.
impl<B, C> Flow for ControlFlow<B, C> {
    type Output = C;

    open spec fn carried(&self) -> Option<C> {
        match *self {
            ControlFlow::Continue(out) => Some(out),
            ControlFlow::Break(_) => None,
        }
    }

    fn from_output(out: C) -> (r: Self) {
        ControlFlow::Continue(out)
    }

    fn branch(self) -> (r: Result<C, Self>) {
        match self {
            ControlFlow::Continue(out) => Ok(out),
            ControlFlow::Break(b) => Err(ControlFlow::Break(b)),
        }
    }
}

} // verus!
