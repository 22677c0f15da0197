//! Random choices. The random numbers come from `rand`.

use crate::addr::SocketAddr;
use rand::seq::SliceRandom;
use vstd::prelude::*;

verus! {

/// `rand::seq::SliceRandom::shuffle` with the thread's random source: some reordering of the list.
#[verifier::external_body]
pub(crate) fn shuffle(list: &mut Vec<SocketAddr>)
    ensures
        final(list)@.to_multiset() == old(list)@.to_multiset(),
{
    list.as_mut_slice().shuffle(&mut rand::thread_rng());
}

/// `rand::seq::SliceRandom::choose_multiple` with the thread's random source: `amount` elements at
/// different places of the list, or all of them where there are fewer, in some order.
#[verifier::external_body]
pub(crate) fn choose_multiple(list: &[SocketAddr], amount: usize) -> (r: Vec<SocketAddr>)
    ensures
        r@.len() == if amount < list@.len() {
            amount as nat
        } else {
            list@.len()
        },
        r@.to_multiset().subset_of(list@.to_multiset()),
{
    list.choose_multiple(&mut rand::thread_rng(), amount).copied().collect()
}

/// `rand::random` for a `u32`. Nothing is promised of the number: it is random.
#[verifier::external_body]
fn random_u32() -> (r: u32)
{
    rand::random()
}

/// `rand::random` for twenty bytes. Nothing is promised of them: they are random.
#[verifier::external_body]
fn random_20() -> (r: [u8; 20])
{
    rand::random()
}

/// A random number for a new circuit.
pub fn new_circuit_id() -> (r: crate::wire::CircuitId)
{
    random_u32()
}

/// A random cookie for a new rendezvous.
pub fn new_cookie() -> (r: [u8; 20])
    ensures
        r@.len() == 20,
{
    random_20()
}

/// What is chosen out of a list stands in it, and nothing is chosen twice that stands in it once.
pub proof fn lemma_chosen(list: Seq<SocketAddr>, chosen: Seq<SocketAddr>)
    requires
        chosen.to_multiset().subset_of(list.to_multiset()),
    ensures
        forall|i: int| 0 <= i < chosen.len() ==> list.contains(#[trigger] chosen[i]),
        list.no_duplicates() ==> chosen.no_duplicates(),
{
    broadcast use vstd::seq_lib::group_to_multiset_ensures;

    assert forall|i: int| 0 <= i < chosen.len() implies list.contains(#[trigger] chosen[i]) by {
        assert(chosen.contains(chosen[i]));
        assert(chosen.to_multiset().count(chosen[i]) > 0);
        assert(list.to_multiset().count(chosen[i]) > 0);
    }
    if list.no_duplicates() {
        list.lemma_multiset_has_no_duplicates();
        assert forall|x: SocketAddr| chosen.to_multiset().contains(
            x,
        ) implies chosen.to_multiset().count(x) == 1 by {
            assert(chosen.to_multiset().count(x) <= list.to_multiset().count(x));
            assert(list.to_multiset().contains(x));
        }
        chosen.lemma_multiset_has_no_duplicates_conv();
    }
}

} // verus!
