//! The trait for stores that intern.

use vstd::prelude::*;

verus! {

/// Trait for types that may facilitate interning. This should be implemented
/// by all types that can store or retrieve data.
pub trait Interner {
    type Key;

    type Value: ?Sized;

    /// Whether the store is in order. Both methods ask for it and `intern`
    /// keeps it.
    spec fn ready(&self) -> bool;

    /// Whether `key` stands for `value` in this store.
    spec fn binds(&self, key: &Self::Key, value: &Self::Value) -> bool;

    /// Whether this store has issued `key`.
    spec fn issued(&self, key: &Self::Key) -> bool;

    /// Whether the store can take `value`: it holds an equal value already,
    /// or storing it passes no limit of the machine.
    spec fn admits(&self, value: &Self::Value) -> bool;

    /// Stores the given value if it is not currently already stored.
    /// Returns the key used by the `Self` to retrieve the stored value.
    /// Every key issued before stands for the same value afterwards.
    fn intern(&mut self, value: &Self::Value) -> (key: Self::Key)
        requires
            old(self).ready(),
            old(self).admits(value),
        ensures
            final(self).ready(),
            final(self).issued(&key),
            final(self).binds(&key, value),
            forall|k: &Self::Key| #[trigger] old(self).issued(k) ==> final(self).issued(k),
            forall|k: &Self::Key, v: &Self::Value| #[trigger]
                old(self).binds(k, v) ==> final(self).binds(k, v),
    ;

    /// The value that `key` stands for.
    fn lookup(&self, key: &Self::Key) -> (value: &Self::Value)
        requires
            self.ready(),
            self.issued(key),
        ensures
            self.binds(key, value),
    ;
}

} // verus!
