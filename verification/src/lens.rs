//! Field projection for mapped write guards: a lens names an optional
//! sub-part of a protected value, so that a write guard can be narrowed to
//! that sub-part without releasing and re-acquiring the lock.

use vstd::prelude::*;

verus! {

/// A projection from a protected value of type `T` onto an optional sub-part
/// of type `U`. `try_extract` splits a value into the sub-part and a
/// remainder; `embed` puts a (possibly updated) sub-part back. The remainder
/// returned by `try_extract` is interchangeable with the original value as
/// far as `with_field` is concerned, so writing the sub-part back through the
/// remainder is the same as writing it back through the original.
pub trait FieldLens<T, U>: Sized {
    /// Whether the sub-part is present in `t`.
    spec fn present(&self, t: T) -> bool;

    /// The sub-part of `t`.
    spec fn field_of(&self, t: T) -> U;

    /// `t` with its sub-part replaced by `u`.
    spec fn with_field(&self, t: T, u: U) -> T;

    /// Splits `t` into a remainder and its sub-part, or returns `t` unchanged
    /// when the sub-part is absent.
    fn try_extract(&self, t: T) -> (r: Result<(T, U), T>)
        ensures
            self.present(t) ==> r is Ok,
            !self.present(t) ==> r == Result::<(T, U), T>::Err(t),
            (r matches Ok(p) ==> p.1 == self.field_of(t) && forall|x: U|
                self.with_field(#[trigger] p.0, x) == self.with_field(t, x)),
    ;

    /// Puts a sub-part back into a remainder.
    fn embed(&self, t: T, u: U) -> (r: T)
        ensures
            r == self.with_field(t, u),
    ;

    /// Law: putting a value's own sub-part back leaves the value unchanged,
    /// so releasing a mapped guard without touching the sub-part hands the
    /// very value that was checked out back to the lock.
    proof fn lemma_put_get(&self, t: T)
        requires
            self.present(t),
        ensures
            self.with_field(t, self.field_of(t)) == t,
    ;
}

/// The lens from `Option<V>` onto the value under `Some`: the projection
/// finds nothing on `None`.
pub struct OptionLens;

impl<V> FieldLens<Option<V>, V> for OptionLens {
    open spec fn present(&self, t: Option<V>) -> bool {
        t is Some
    }

    open spec fn field_of(&self, t: Option<V>) -> V {
        t.unwrap()
    }

    open spec fn with_field(&self, t: Option<V>, u: V) -> Option<V> {
        Some(u)
    }

    fn try_extract(&self, t: Option<V>) -> (r: Result<(Option<V>, V), Option<V>>) {
        match t {
            Some(v) => Ok((None, v)),
            None => Err(None),
        }
    }

    fn embed(&self, t: Option<V>, u: V) -> (r: Option<V>) {
        Some(u)
    }

    proof fn lemma_put_get(&self, t: Option<V>) {
    }
}

/// The lens from a pair onto its first component; the component type must be
/// `Copy` so the remainder can keep a placeholder. This projection is always
/// present.
pub struct PairLeftLens;

impl<A: Copy, B> FieldLens<(A, B), A> for PairLeftLens {
    open spec fn present(&self, t: (A, B)) -> bool {
        true
    }

    open spec fn field_of(&self, t: (A, B)) -> A {
        t.0
    }

    open spec fn with_field(&self, t: (A, B), u: A) -> (A, B) {
        (u, t.1)
    }

    fn try_extract(&self, t: (A, B)) -> (r: Result<((A, B), A), (A, B)>) {
        let first = t.0;
        Ok((t, first))
    }

    fn embed(&self, t: (A, B), u: A) -> (r: (A, B)) {
        (u, t.1)
    }

    proof fn lemma_put_get(&self, t: (A, B)) {
    }
}

} // verus!
