//! Random choices, drawn from the `rand` crate's thread-local generator.
//! Nothing is known of a draw but the range it falls in; a log keeps each
//! draw together with its range.
use rand::rngs::ThreadRng;
use rand::Rng;
use vstd::prelude::*;

verus! {

/// The `rand` crate's handle on the thread-local random generator.
#[verifier::external_type_specification]
#[verifier::external_body]
pub struct ExThreadRng(ThreadRng);

/// `rand::thread_rng`: a handle on the thread-local generator.
#[verifier::external_body]
pub(crate) fn thread_rng() -> ThreadRng {
    rand::thread_rng()
}

/// `Rng::gen_range(lo..hi)` of the `rand` crate: a number drawn from
/// `lo..hi`. The crate panics on an empty range, which `requires` leaves out.
#[verifier::external_body]
pub(crate) fn random_in(rng: &mut ThreadRng, lo: usize, hi: usize) -> (r: usize)
    requires
        lo < hi,
    ensures
        lo <= r < hi,
{
    rng.gen_range(lo..hi)
}

/// `d` is a draw from `lo..hi`: it records that range and a value in it.
pub open spec fn is_draw(d: (usize, usize, usize), lo: usize, hi: usize) -> bool {
    d.0 == lo && d.1 == hi && lo <= d.2 < hi
}

/// `after` is `before` with more draws at its end.
pub open spec fn extends(before: Seq<(usize, usize, usize)>, after: Seq<(usize, usize, usize)>) -> bool {
    before.len() <= after.len() && after.take(before.len() as int) == before
}

/// The draws of `after` that came after `before`.
pub open spec fn drawn_since(
    before: Seq<(usize, usize, usize)>,
    after: Seq<(usize, usize, usize)>,
) -> Seq<(usize, usize, usize)> {
    after.skip(before.len() as int)
}

/// The thread's random generator, with the draws taken from it so far.
pub struct DrawLog {
    rng: ThreadRng,
    drawn: Ghost<Seq<(usize, usize, usize)>>,
}

impl DrawLog {
    /// The draws taken so far, oldest first: for each, the range `lo..hi` it
    /// was drawn from and the value drawn, as `(lo, hi, value)`.
    pub closed spec fn history(&self) -> Seq<(usize, usize, usize)> {
        self.drawn@
    }

    /// A log on the thread's generator, with nothing drawn yet.
    pub fn new() -> (r: DrawLog)
        ensures
            r.history() == Seq::<(usize, usize, usize)>::empty(),
    {
        DrawLog { rng: thread_rng(), drawn: Ghost(Seq::empty()) }
    }

    /// Draws a number from `lo..hi` and records the range and the number.
    pub fn draw(&mut self, lo: usize, hi: usize) -> (r: usize)
        requires
            lo < hi,
        ensures
            lo <= r < hi,
            final(self).history() == old(self).history().push((lo, hi, r)),
    {
        let r = random_in(&mut self.rng, lo, hi);
        self.drawn = Ghost(self.drawn@.push((lo, hi, r)));
        r
    }
}

} // verus!
