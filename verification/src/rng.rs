use vstd::prelude::*;

verus! {

#[verifier::external_type_specification]
#[verifier::external_body]
pub struct ExStdRng(rand::rngs::StdRng);

/// A seedable random source. Every draw is stated only by its range: two
/// draws with equal arguments may differ.
pub struct Rand {
    rng: rand::rngs::StdRng,
}

impl Rand {
    /// Relies on rand::SeedableRng::seed_from_u64 to build a generator from a
    /// 64-bit seed; nothing is promised of the stream it produces.
    #[verifier::external_body]
    pub fn from_seed(seed: u64) -> Rand {
        Rand { rng: <rand::rngs::StdRng as rand::SeedableRng>::seed_from_u64(seed) }
    }

    /// Relies on rand::RngExt::random_range over `lo..hi`: a value uniform in
    /// [lo, hi). The call panics on an empty range, so one is required here.
    #[verifier::external_body]
    pub fn gen_range(&mut self, lo: i32, hi: i32) -> (r: i32)
        requires
            lo < hi,
        ensures
            lo <= r < hi,
    {
        rand::RngExt::random_range(&mut self.rng, lo..hi)
    }

    /// Relies on rand::RngExt::random_range over `0..len`: a uniform index
    /// into a non-empty sequence.
    #[verifier::external_body]
    pub fn gen_index(&mut self, len: usize) -> (r: usize)
        requires
            0 < len,
        ensures
            r < len,
    {
        rand::RngExt::random_range(&mut self.rng, 0..len)
    }
}

} // verus!
