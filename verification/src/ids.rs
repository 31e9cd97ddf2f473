//! Identity sources: the acceptor's monotonic id counter, and a helper that
//! draws a random number not yet taken.

use vstd::prelude::*;
use rand::RngExt;

verus! {

/// The monotonic counter the acceptor owns: each accepted shell-channel
/// connection is handed the next id, and the counter never goes back.
#[derive(Clone, Copy)]
pub struct IdCounter {
    next: u64,
}

impl IdCounter {
    /// The id the next connection will receive.
    pub closed spec fn next_id(&self) -> u64 {
        self.next
    }

    /// A counter starting at zero.
    pub fn new() -> (r: IdCounter)
        ensures
            r.next_id() == 0,
    {
        IdCounter { next: 0 }
    }

    /// Whether the counter can no longer advance.
    pub fn exhausted(&self) -> (r: bool)
        ensures
            r == (self.next_id() == u64::MAX),
    {
        self.next == u64::MAX
    }

    /// Hand out the current id and advance.
    pub fn fresh(&mut self) -> (id: u64)
        requires
            old(self).next_id() < u64::MAX,
        ensures
            id == old(self).next_id(),
            final(self).next_id() == old(self).next_id() + 1,
    {
        let id = self.next;
        self.next = self.next + 1;
        id
    }
}

/// Relies on `rand::rng` and `rand::RngExt::random`: a freshly drawn `u32`.
/// Nothing is promised of the value; callers must hold for every outcome.
#[verifier::external_body]
fn random_u32() -> u32 {
    rand::rng().random::<u32>()
}

/// Whether `taken` holds `x`.
fn contains_u32(taken: &Vec<u32>, x: u32) -> (r: bool)
    ensures
        r == taken@.contains(x),
{
    let mut k: usize = 0;
    while k < taken.len()
        invariant
            0 <= k <= taken@.len(),
            forall|j: int| 0 <= j < k ==> taken@[j] != x,
        decreases taken@.len() - k,
    {
        if taken[k] == x {
            return true;
        }
        k = k + 1;
    }
    assert(!taken@.contains(x)) by {
        if taken@.contains(x) {
            let j = choose|j: int| 0 <= j < taken@.len() && taken@[j] == x;
        }
    }
    false
}

/// Draw random numbers until one is not in `taken`, giving up after
/// `attempts` collisions so that the search always ends. A returned number is
/// never one already taken, and with nothing taken the first draw is it; a
/// caller that passes a generous attempt count makes `None` as unlikely as it
/// pleases while unassigned numbers remain.
pub fn generate_unique_u32(taken: &Vec<u32>, attempts: usize) -> (r: Option<u32>)
    ensures
        r matches Some(v) ==> !taken@.contains(v),
        taken@.len() == 0 && attempts > 0 ==> r is Some,
{
    let mut k: usize = 0;
    while k < attempts
        invariant
            0 <= k <= attempts,
            taken@.len() == 0 ==> k == 0,
        decreases attempts - k,
    {
        let candidate = random_u32();
        if !contains_u32(taken, candidate) {
            return Some(candidate);
        }
        assert(taken@.len() > 0) by {
            assert(taken@.contains(candidate));
        }
        k = k + 1;
    }
    None
}

} // verus!
