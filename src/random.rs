use vstd::prelude::*;
use rand::seq::{IteratorRandom, SliceRandom};
use rand::Rng;

verus! {

/// Relies on `rand::random`: a value drawn from the thread-local generator;
/// nothing is known of which one.
pub assume_specification<T>[ rand::random::<T> ]() -> (r: T)
    where
        rand::distributions::Standard: rand::distributions::Distribution<T>,
;

/// Relies on `SliceRandom::shuffle` over `thread_rng`: the same items, in an order drawn at random.
#[verifier::external_body]
pub(crate) fn shuffle<T>(v: &mut Vec<T>)
    ensures
        final(v)@.to_multiset() == old(v)@.to_multiset(),
{
    v.shuffle(&mut rand::thread_rng());
}

/// Relies on `IteratorRandom::choose_multiple` over `thread_rng`: as many of
/// the items as `amount` asks and there are, each from a position of its own.
#[verifier::external_body]
pub(crate) fn choose_multiple<T>(items: Vec<T>, amount: usize) -> (r: Vec<T>)
    ensures
        r@.len() == if amount < items@.len() {
            amount as int
        } else {
            items@.len() as int
        },
        r@.to_multiset().subset_of(items@.to_multiset()),
{
    items.into_iter().choose_multiple(&mut rand::thread_rng(), amount)
}

/// Relies on `Rng::gen_range` over `thread_rng`: an index below `n` drawn at
/// random; the range may not be empty.
#[verifier::external_body]
pub(crate) fn random_index(n: usize) -> (r: usize)
    requires
        n > 0,
    ensures
        r < n,
{
    rand::thread_rng().gen_range(0..n)
}

} // verus!
