use vstd::prelude::*;

verus! {

/// A decision procedure that tells whether one item goes before another.
pub trait Comparator<T> {
    /// Whether `compare` may be called on every pair and answers as a function of the pair.
    spec fn well_formed(&self) -> bool;

    /// The relation that `compare` decides: `a` goes before `b`.
    spec fn precedes(&self, a: &T, b: &T) -> bool;

    fn compare(&self, a: &T, b: &T) -> (r: bool)
        requires
            self.well_formed(),
        ensures
            r == self.precedes(a, b),
    ;
}

/// The relation of a comparator is a strict weak order: it is asymmetric, and being
/// "not before" is transitive. Every ordering by a key is of this kind.
pub open spec fn strict_weak_order<T, C: Comparator<T>>(c: &C) -> bool {
    &&& forall|a: &T, b: &T| #[trigger] c.precedes(a, b) ==> !c.precedes(b, a)
    &&& forall|a: &T, x: &T, b: &T|
        !#[trigger] c.precedes(a, x) && !#[trigger] c.precedes(x, b) ==> !c.precedes(a, b)
}

/// A strict weak order is transitive.
pub proof fn lemma_strict_weak_order_transitive<T, C: Comparator<T>>(c: &C, a: &T, x: &T, b: &T)
    requires
        strict_weak_order(c),
        c.precedes(a, x),
        c.precedes(x, b),
    ensures
        c.precedes(a, b),
{
    if !c.precedes(a, b) {
        assert(!c.precedes(b, x));
        assert(!c.precedes(a, x));
    }
}

pub trait ID {
    /// The identifier as a sequence of characters.
    spec fn id_view(&self) -> Seq<char>;

    /// Returns the identifier to its `Self`
    fn get_id(&self) -> (id: String)
        ensures
            id@ == self.id_view(),
    ;
}

/// A number is identified by the way it is written in decimal.
impl ID for i32 {
    open spec fn id_view(&self) -> Seq<char> {
        crate::utils::decimal(*self as int)
    }

    fn get_id(&self) -> (id: String) {
        crate::utils::decimal_string(*self as i64)
    }
}

pub trait Repeating {
    /// The repeat frequency as a number.
    spec fn every_view(&self) -> u32;

    /// Returns the repeat frequency for a repeating event
    /// The frequency returned cannot alone be made sense of without a unit of frequency.
    /// For example, yearly, daily, etc.
    fn every(&self) -> (n: u32)
        ensures
            n == self.every_view(),
    ;
}

} // verus!
