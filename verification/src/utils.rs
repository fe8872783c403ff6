use vstd::prelude::*;
use vstd::std_specs::cmp::PartialEqSpec;
use std::hash::Hash;

verus! {

/// `==` on `T` decides whether two values are the same value.
pub open spec fn eq_is_identity<T: PartialEq>() -> bool {
    &&& T::obeys_eq_spec()
    &&& forall|a: T, b: T| #[trigger] a.eq_spec(&b) <==> a == b
}

/// A clone of a `T` is the value it was made from.
pub open spec fn clone_is_identity<T: Clone>() -> bool {
    forall|a: T, b: T| #[trigger] cloned(a, b) ==> a == b
}

/// The items of a sequence, each of them once, in the order in which they first occur.
pub open spec fn first_occurrences<T>(items: Seq<T>) -> Seq<T>
    decreases items.len(),
{
    if items.len() == 0 {
        Seq::empty()
    } else {
        let before = first_occurrences(items.drop_last());
        if before.contains(items.last()) {
            before
        } else {
            before.push(items.last())
        }
    }
}

/// The first occurrences of a sequence hold what the sequence holds, and nothing twice.
pub proof fn lemma_first_occurrences<T>(items: Seq<T>)
    ensures
        first_occurrences(items).no_duplicates(),
        forall|x: T| first_occurrences(items).contains(x) <==> items.contains(x),
    decreases items.len(),
{
    if items.len() > 0 {
        let front = items.drop_last();
        let before = first_occurrences(front);
        let all = first_occurrences(items);
        lemma_first_occurrences(front);
        assert(items[items.len() - 1] == items.last());
        assert forall|x: T| all.contains(x) <==> items.contains(x) by {
            if all.contains(x) {
                let k = all.index_of(x);
                if k < before.len() {
                    assert(before[k] == x);
                    assert(front.contains(x));
                    let j = front.index_of(x);
                    assert(items[j] == x);
                }
            }
            if items.contains(x) {
                let j = items.index_of(x);
                if j < front.len() {
                    assert(front[j] == x);
                    assert(front.contains(x));
                    assert(before.contains(x));
                    let k = before.index_of(x);
                    assert(all[k] == x);
                } else if before.contains(x) {
                    let k = before.index_of(x);
                    assert(all[k] == x);
                } else {
                    assert(all[before.len() as int] == x);
                }
            }
        }
    }
}

/// To take the first occurrences of a sequence and then to apply a function that gives
/// different values for the different items of the sequence is to apply the function first.
pub proof fn lemma_first_occurrences_mapped<A, B>(items: Seq<A>, f: spec_fn(A) -> B)
    requires
        forall|i: int, j: int|
            0 <= i < items.len() && 0 <= j < items.len() && f(items[i]) == f(items[j])
                ==> items[i] == items[j],
    ensures
        first_occurrences(items).map_values(f) == first_occurrences(items.map_values(f)),
    decreases items.len(),
{
    let mapped = items.map_values(f);
    if items.len() == 0 {
        assert(first_occurrences(items).map_values(f) =~= first_occurrences(mapped));
    } else {
        let front = items.drop_last();
        let last = items.last();
        assert forall|i: int, j: int|
            0 <= i < front.len() && 0 <= j < front.len() && f(front[i]) == f(front[j])
                implies front[i] == front[j] by {
            assert(front[i] == items[i] && front[j] == items[j]);
        }
        lemma_first_occurrences_mapped(front, f);
        lemma_first_occurrences(front);
        assert(mapped.drop_last() =~= front.map_values(f));
        assert(mapped.last() == f(last));
        let before = first_occurrences(front);
        let images = before.map_values(f);
        if before.contains(last) {
            let k = before.index_of(last);
            assert(images[k] == f(last));
        } else {
            if images.contains(f(last)) {
                // an item of the front with the value of the last item is the last item
                let k = images.index_of(f(last));
                assert(front.contains(before[k]));
                let j = front.index_of(before[k]);
                assert(items[j] == before[k]);
                assert(items[items.len() - 1] == last);
                assert(before[k] == last);
            }
            assert(before.push(last).map_values(f) =~= images.push(f(last)));
        }
    }
}

/// Different numbers from zero up to a bound are no more than the bound says.
pub proof fn lemma_distinct_below(values: Seq<int>, bound: int)
    requires
        0 <= bound,
        values.no_duplicates(),
        forall|i: int| 0 <= i < values.len() ==> 0 <= #[trigger] values[i] < bound,
    ensures
        values.len() <= bound,
{
    if values.len() > 0 {
        values.unique_seq_to_set();
        vstd::set_lib::lemma_int_range(0, bound);
        assert forall|v: int| values.to_set().contains(v) implies vstd::set_lib::set_int_range(
            0,
            bound,
        ).contains(v) by {
            let i = values.index_of(v);
            assert(values[i] == v);
        }
        assert(values.to_set().subset_of(vstd::set_lib::set_int_range(0, bound)));
        vstd::set_lib::lemma_len_subset(values.to_set(), vstd::set_lib::set_int_range(0, bound));
    }
}

/// Two properties that agree on the items of a sequence pick the same items of it.
pub proof fn lemma_filter_agrees<T>(items: Seq<T>, p: spec_fn(T) -> bool, q: spec_fn(T) -> bool)
    requires
        forall|i: int| 0 <= i < items.len() ==> p(#[trigger] items[i]) == q(items[i]),
    ensures
        items.filter(p) == items.filter(q),
    decreases items.len(),
{
    reveal(Seq::filter);
    if items.len() > 0 {
        let front = items.drop_last();
        assert forall|i: int| 0 <= i < front.len() implies p(#[trigger] front[i]) == q(
            front[i],
        ) by {
            assert(front[i] == items[i]);
        }
        lemma_filter_agrees(front, p, q);
        assert(items.last() == items[items.len() - 1]);
    }
}

/// The property of being accepted by a predicate: the predicate can answer `true`.
pub open spec fn accepted_by<T, P: Fn(&T) -> bool>(predicate: P) -> spec_fn(T) -> bool {
    |item: T| call_ensures(predicate, (&item,), true)
}

/// The predicate gives one answer for each of the items.
pub open spec fn decides<T, P: Fn(&T) -> bool>(predicate: P, items: Seq<T>) -> bool {
    forall|i: int|
        0 <= i < items.len() ==> !(call_ensures(predicate, (&#[trigger] items[i],), true)
            && call_ensures(predicate, (&items[i],), false))
}

/// What a function gives for an item.
pub open spec fn image<T, B, F: Fn(&T) -> B>(f: F, item: T) -> B {
    choose|value: B| call_ensures(f, (&item,), value)
}

/// What a function gives for the items of a sequence, one after the other.
pub open spec fn images<T, B, F: Fn(&T) -> B>(f: F, items: Seq<T>) -> Seq<B> {
    items.map_values(|item: T| image(f, item))
}

/// The function gives one value for each of the items.
pub open spec fn single_valued<T, B, F: Fn(&T) -> B>(f: F, items: Seq<T>) -> bool {
    forall|i: int, a: B, b: B|
        0 <= i < items.len() && call_ensures(f, (&#[trigger] items[i],), a) && call_ensures(
            f,
            (&items[i],),
            b,
        ) ==> a == b
}

/// Whether the vector holds the value.
fn holds<T: PartialEq>(items: &Vec<T>, value: &T) -> (r: bool)
    requires
        eq_is_identity::<T>(),
    ensures
        r == items@.contains(*value),
{
    let mut i: usize = 0;
    while i < items.len()
        invariant
            i <= items.len(),
            eq_is_identity::<T>(),
            forall|k: int| 0 <= k < i ==> items@[k] != *value,
        decreases items.len() - i,
    {
        if items[i] == *value {
            return true;
        }
        i += 1;
    }
    false
}

/// The items of the collection that the predicate accepts, each of them once, in the order
/// in which they first occur.
pub fn filter_unique<T, P>(collection: &Vec<T>, predicate: P) -> (unique: Vec<T>) where
    T: Hash + Eq + Clone,
    P: Fn(&T) -> bool,

    requires
        eq_is_identity::<T>(),
        clone_is_identity::<T>(),
        forall|i: int| 0 <= i < collection@.len() ==> call_requires(predicate, (&collection@[i],)),
        decides(predicate, collection@),
    ensures
        unique@ == first_occurrences(collection@.filter(accepted_by(predicate))),
        forall|i: int|
            0 <= i < collection@.len() ==> call_ensures(
                predicate,
                (&#[trigger] collection@[i],),
                true,
            ) || call_ensures(predicate, (&collection@[i],), false),
{
    let mut unique: Vec<T> = Vec::new();
    let mut i: usize = 0;
    proof {
        reveal(Seq::filter);
        assert(collection@.take(0) =~= Seq::<T>::empty());
    }
    while i < collection.len()
        invariant
            i <= collection.len(),
            eq_is_identity::<T>(),
            clone_is_identity::<T>(),
            forall|k: int|
                0 <= k < collection@.len() ==> call_requires(predicate, (&collection@[k],)),
            decides(predicate, collection@),
            unique@ == first_occurrences(
                collection@.take(i as int).filter(accepted_by(predicate)),
            ),
            forall|k: int|
                0 <= k < i ==> call_ensures(predicate, (&#[trigger] collection@[k],), true)
                    || call_ensures(predicate, (&collection@[k],), false),
        decreases collection.len() - i,
    {
        let item = &collection[i];
        let ghost before = collection@.take(i as int).filter(accepted_by(predicate));
        let ghost upto = collection@.take(i as int + 1).filter(accepted_by(predicate));
        proof {
            reveal(Seq::filter);
            assert(collection@.take(i as int + 1).drop_last() =~= collection@.take(i as int));
            assert(collection@.take(i as int + 1).last() == *item);
            assert(collection@[i as int] == *item);
        }
        let accepted = predicate(item);
        proof {
            if accepted {
                assert(upto == before.push(*item));
                assert(upto.drop_last() =~= before);
                assert(upto.last() == *item);
            } else {
                assert(upto == before);
            }
        }
        if accepted && !holds(&unique, item) {
            let copy = item.clone();
            proof {
                assert(cloned(*item, copy));
            }
            unique.push(copy);
        }
        i += 1;
    }
    proof {
        assert(collection@.take(collection@.len() as int) =~= collection@);
    }
    unique
}

/// What the function makes of the items of the collection, each result once, in the order in
/// which they first occur.
pub fn map_unique<T, B, F>(collection: &Vec<T>, f: F) -> (unique: Vec<B>) where
    B: Hash + Eq,
    F: Fn(&T) -> B,

    requires
        eq_is_identity::<B>(),
        forall|i: int| 0 <= i < collection@.len() ==> call_requires(f, (&collection@[i],)),
        single_valued(f, collection@),
    ensures
        unique@ == first_occurrences(images(f, collection@)),
        forall|i: int|
            0 <= i < collection@.len() ==> call_ensures(
                f,
                (&#[trigger] collection@[i],),
                image(f, collection@[i]),
            ),
{
    let mut unique: Vec<B> = Vec::new();
    let mut i: usize = 0;
    proof {
        assert(images(f, collection@.take(0)) =~= Seq::<B>::empty());
    }
    while i < collection.len()
        invariant
            i <= collection.len(),
            eq_is_identity::<B>(),
            forall|k: int| 0 <= k < collection@.len() ==> call_requires(f, (&collection@[k],)),
            single_valued(f, collection@),
            unique@ == first_occurrences(images(f, collection@.take(i as int))),
            forall|k: int|
                0 <= k < i ==> call_ensures(
                    f,
                    (&#[trigger] collection@[k],),
                    image(f, collection@[k]),
                ),
        decreases collection.len() - i,
    {
        let value = f(&collection[i]);
        proof {
            let item = collection@[i as int];
            assert(call_ensures(f, (&item,), value));
            assert(call_ensures(f, (&item,), image(f, item)));
            assert(value == image(f, item));
            let upto = images(f, collection@.take(i as int + 1));
            assert(upto.drop_last() =~= images(f, collection@.take(i as int)));
            assert(upto.last() == value);
        }
        if !holds(&unique, &value) {
            unique.push(value);
        }
        i += 1;
    }
    proof {
        assert(collection@.take(collection@.len() as int) =~= collection@);
    }
    unique
}

/// The character that stands for a digit below ten.
pub open spec fn digit_char(d: nat) -> char {
    if d == 0 {
        '0'
    } else if d == 1 {
        '1'
    } else if d == 2 {
        '2'
    } else if d == 3 {
        '3'
    } else if d == 4 {
        '4'
    } else if d == 5 {
        '5'
    } else if d == 6 {
        '6'
    } else if d == 7 {
        '7'
    } else if d == 8 {
        '8'
    } else {
        '9'
    }
}

/// The decimal digits of a natural number, the most significant first.
pub open spec fn digits(n: nat) -> Seq<char>
    decreases n,
{
    if n < 10 {
        seq![digit_char(n)]
    } else {
        digits(n / 10).push(digit_char(n % 10))
    }
}

/// A number in decimal, with a minus sign before a negative one.
pub open spec fn decimal(n: int) -> Seq<char> {
    if n < 0 {
        seq!['-'] + digits((-n) as nat)
    } else {
        digits(n as nat)
    }
}

/// `i64::to_string`: the number written in decimal, with a minus sign before a negative one
/// and no other sign, space or leading zero.
#[verifier::external_body]
pub(crate) fn decimal_string(n: i64) -> (s: String)
    ensures
        s@ == decimal(n as int),
{
    n.to_string()
}

} // verus!
