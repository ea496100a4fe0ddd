//! A general-purpose sum type: a value that is either `Left(L)` or `Right(R)`.
//!
//! The enum `Either` carries exactly one payload, tagged with the side it
//! belongs to.  Beyond the core inspection, extraction and mapping methods,
//! the crate lets an `Either` stand in for whichever payload it holds:
//! sequence production (`iterator`), byte-stream reading and writing (`io`),
//! and a tag-prefixed binary encoding (`codec`).

use vstd::prelude::*;

pub mod codec;
pub mod io;
pub mod iterator;

verus! {

use core::cmp::Ordering;
use vstd::std_specs::cmp::PartialOrdSpec;

pub use Either::Left;
pub use Either::Right;

/// `Either` represents an alternative holding one value out of
/// either of the two possible values.
///
/// `Either` is a general purpose sum type of two parts. For representing
/// success or error, use the regular `Result<T, E>` instead.
#[derive(Copy, Clone, PartialEq, Eq, Ord, Hash, Debug)]
pub enum Either<L, R> {
    /// A value of type `L`.
    Left(L),
    /// A value of type `R`.
    Right(R),
}

impl<L, R> Either<L, R> {
    /// The left payload as an `Option`, at the specification level.
    pub open spec fn spec_left(self) -> Option<L> {
        match self {
            Either::Left(l) => Some(l),
            Either::Right(_) => None,
        }
    }

    /// The right payload as an `Option`, at the specification level.
    pub open spec fn spec_right(self) -> Option<R> {
        match self {
            Either::Left(_) => None,
            Either::Right(r) => Some(r),
        }
    }

    /// The same payload under the opposite tag, at the specification level.
    pub open spec fn spec_flip(self) -> Either<R, L> {
        match self {
            Either::Left(l) => Either::Right(l),
            Either::Right(r) => Either::Left(r),
        }
    }

    /// Returns true if the value is `Left(L)`.
    pub fn is_left(&self) -> (r: bool)
        ensures
            r == (self is Left),
    {
        match *self {
            Either::Left(_) => true,
            Either::Right(_) => false,
        }
    }

    /// Returns true if the value is `Right(R)`.
    pub fn is_right(&self) -> (r: bool)
        ensures
            r == (self is Right),
    {
        !self.is_left()
    }

    /// Converts the left side of `Either<L, R>` to an `Option<L>`.
    pub fn left(self) -> (r: Option<L>)
        ensures
            r == self.spec_left(),
    {
        match self {
            Either::Left(l) => Some(l),
            Either::Right(_) => None,
        }
    }

    /// Converts the right side of `Either<L, R>` to an `Option<R>`.
    pub fn right(self) -> (r: Option<R>)
        ensures
            r == self.spec_right(),
    {
        match self {
            Either::Left(_) => None,
            Either::Right(r) => Some(r),
        }
    }

    /// Converts `Either<L, R>` to `Either<&L, &R>`.
    pub fn as_ref(&self) -> (r: Either<&L, &R>)
        ensures
            *self matches Either::Left(l) ==> (r matches Either::Left(a) && *a == l),
            *self matches Either::Right(b) ==> (r matches Either::Right(a) && *a == b),
    {
        match *self {
            Either::Left(ref inner) => Either::Left(inner),
            Either::Right(ref inner) => Either::Right(inner),
        }
    }

    /// Converts `Either<L, R>` to `Either<&mut L, &mut R>`.
    pub fn as_mut(&mut self) -> (r: Either<&mut L, &mut R>)
        ensures
            *old(self) matches Either::Left(l) ==> (r matches Either::Left(a) && *a == l
                && *final(self) == Either::<L, R>::Left(*final(a))),
            *old(self) matches Either::Right(b) ==> (r matches Either::Right(a) && *a == b
                && *final(self) == Either::<L, R>::Right(*final(a))),
    {
        match *self {
            Either::Left(ref mut inner) => Either::Left(inner),
            Either::Right(ref mut inner) => Either::Right(inner),
        }
    }

    /// Converts `Either<L, R>` to `Either<R, L>`.
    pub fn flip(self) -> (r: Either<R, L>)
        ensures
            r == self.spec_flip(),
    {
        match self {
            Either::Left(l) => Either::Right(l),
            Either::Right(r) => Either::Left(r),
        }
    }

    /// Applies the function `f` on the `Left(L)` variant, leaving a `Right`
    /// payload untouched.
    pub fn map_left<F, M>(self, f: F) -> (r: Either<M, R>) where F: FnOnce(L) -> M
        requires
            self matches Either::Left(l) ==> call_requires(f, (l,)),
        ensures
            self matches Either::Left(l) ==> (r matches Either::Left(m) && call_ensures(
                f,
                (l,),
                m,
            )),
            self matches Either::Right(b) ==> r == Either::<M, R>::Right(b),
    {
        match self {
            Either::Left(l) => Either::Left(f(l)),
            Either::Right(r) => Either::Right(r),
        }
    }

    /// Applies the function `f` on the `Right(R)` variant, leaving a `Left`
    /// payload untouched.
    pub fn map_right<F, S>(self, f: F) -> (r: Either<L, S>) where F: FnOnce(R) -> S
        requires
            self matches Either::Right(b) ==> call_requires(f, (b,)),
        ensures
            self matches Either::Right(b) ==> (r matches Either::Right(s) && call_ensures(
                f,
                (b,),
                s,
            )),
            self matches Either::Left(l) ==> r == Either::<L, S>::Left(l),
    {
        match self {
            Either::Left(l) => Either::Left(l),
            Either::Right(r) => Either::Right(f(r)),
        }
    }

    /// Applies one of two functions depending on contents, unifying their
    /// result.  If the value is `Left(L)` then the first function `f` is
    /// applied; if it is `Right(R)` then the second function `g` is applied.
    /// Exactly one of the two runs, on the payload that is present.
    pub fn either<F, G, T>(self, f: F, g: G) -> (r: T) where
        F: FnOnce(L) -> T,
        G: FnOnce(R) -> T,

        requires
            self matches Either::Left(l) ==> call_requires(f, (l,)),
            self matches Either::Right(b) ==> call_requires(g, (b,)),
        ensures
            self matches Either::Left(l) ==> call_ensures(f, (l,), r),
            self matches Either::Right(b) ==> call_ensures(g, (b,), r),
    {
        match self {
            Either::Left(l) => f(l),
            Either::Right(r) => g(r),
        }
    }
}

/// Exactly one of `is_left` and `is_right` holds of any `Either` value.
pub proof fn lemma_one_side<L, R>(x: Either<L, R>)
    ensures
        (x is Left) <==> !(x is Right),
{
}

/// Extraction agrees with construction: `left` recovers the payload of a
/// `Left` and rejects a `Right`; `right` does the same with the tags
/// exchanged.
pub proof fn lemma_left_right_of_constructors<L, R>(v: L, w: R)
    ensures
        Either::<L, R>::Left(v).spec_left() == Some(v),
        Either::<L, R>::Right(w).spec_left() == None::<L>,
        Either::<L, R>::Right(w).spec_right() == Some(w),
        Either::<L, R>::Left(v).spec_right() == None::<R>,
{
}

/// Flipping twice is the identity.
pub proof fn lemma_flip_flip<L, R>(x: Either<L, R>)
    ensures
        x.spec_flip().spec_flip() == x,
{
}

impl<L, R> Either<L, R> {
    /// Converts `Either` to `Result` with `Right => Ok` and `Left => Err`.
    pub fn into_result(self) -> (r: Result<R, L>)
        ensures
            self matches Either::Left(l) ==> r == Err::<R, L>(l),
            self matches Either::Right(x) ==> r == Ok::<R, L>(x),
    {
        match self {
            Either::Left(l) => Err(l),
            Either::Right(r) => Ok(r),
        }
    }
}

/// Convert from `Result` to `Either` with `Ok => Right` and `Err => Left`.
impl<L, R> From<Result<R, L>> for Either<L, R> {
    fn from(r: Result<R, L>) -> (res: Self) {
        match r {
            Err(e) => Either::Left(e),
            Ok(o) => Either::Right(o),
        }
    }
}

impl<L, R> vstd::std_specs::convert::FromSpecImpl<Result<R, L>> for Either<L, R> {
    open spec fn obeys_from_spec() -> bool {
        true
    }

    open spec fn from_spec(v: Result<R, L>) -> Self {
        match v {
            Err(e) => Either::Left(e),
            Ok(o) => Either::Right(o),
        }
    }
}

/// A `Left` orders before a `Right` whatever the payloads; two values under
/// the same tag order as their payloads do.
impl<L, R> PartialOrd for Either<L, R> where L: PartialOrd, R: PartialOrd {
    fn partial_cmp(&self, other: &Self) -> (r: Option<Ordering>) {
        match (self, other) {
            (Either::Left(a), Either::Left(b)) => a.partial_cmp(b),
            (Either::Left(_), Either::Right(_)) => Some(Ordering::Less),
            (Either::Right(_), Either::Left(_)) => Some(Ordering::Greater),
            (Either::Right(a), Either::Right(b)) => a.partial_cmp(b),
        }
    }
}

impl<L, R> vstd::std_specs::cmp::PartialOrdSpecImpl for Either<L, R> where L: PartialOrd, R: PartialOrd {
    open spec fn obeys_partial_cmp_spec() -> bool {
        L::obeys_partial_cmp_spec() && R::obeys_partial_cmp_spec()
    }

    open spec fn partial_cmp_spec(&self, other: &Self) -> Option<Ordering> {
        match (self, other) {
            (Either::Left(a), Either::Left(b)) => a.partial_cmp_spec(b),
            (Either::Left(_), Either::Right(_)) => Some(Ordering::Less),
            (Either::Right(_), Either::Left(_)) => Some(Ordering::Greater),
            (Either::Right(a), Either::Right(b)) => a.partial_cmp_spec(b),
        }
    }
}

/// A `Left` compares strictly below a `Right`, regardless of how the payloads
/// themselves compare.
pub proof fn lemma_left_before_right<L, R>(l: L, r: R) where L: PartialOrd, R: PartialOrd
    ensures
        Either::<L, R>::Left(l).partial_cmp_spec(&Either::<L, R>::Right(r)) == Some(
            Ordering::Less,
        ),
        Either::<L, R>::Right(r).partial_cmp_spec(&Either::<L, R>::Left(l)) == Some(
            Ordering::Greater,
        ),
{
}

impl Either<String, String> {
    /// Both sides dereference to the same string slice type; hand out the
    /// live payload's slice, as dereferencing the sum does.
    pub fn deref(&self) -> (r: &str)
        ensures
            *self matches Either::Left(s) ==> r@ == s@,
            *self matches Either::Right(s) ==> r@ == s@,
    {
        match self {
            Either::Left(s) => s.as_str(),
            Either::Right(s) => s.as_str(),
        }
    }
}

} // verus!
