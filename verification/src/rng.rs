use vstd::prelude::*;

verus! {

#[verifier::external_type_specification]
#[verifier::external_body]
pub struct ExStdRng(rand::rngs::StdRng);

/// One recorded draw, coded as a single word: the high half holds the
/// draw's first parameter (ratio numerator or range bound), the low half
/// the ratio denominator, with 0 marking a range draw (a ratio denominator
/// is never 0).
pub open spec fn draw_code(hi: u32, lo: u32) -> u64 {
    (hi as u64 * 0x1_0000_0000 + lo as u64) as u64
}

/// A history of `k` identical draws.
pub open spec fn rep(code: u64, k: nat) -> Seq<u64> {
    Seq::new(k, |i: int| code)
}

/// The boolean that a Bernoulli ratio draw yields on a generator that was
/// seeded with `seed` and has already served the draws in `history`.
pub uninterp spec fn ratio_draw(seed: u64, history: Seq<u64>, num: u32, den: u32) -> bool;

/// The value that a uniform draw from `0..bound` yields on a generator
/// that was seeded with `seed` and has already served the draws in
/// `history`.
pub uninterp spec fn range_draw(seed: u64, history: Seq<u64>, bound: u32) -> u32;

/// A deterministic pseudorandom source: rand's `StdRng` tagged with the
/// seed it was built from and with the draws served so far, so that
/// contracts can name every draw. Only this module builds values of it,
/// which keeps the tags in step with the generator.
pub(crate) struct SeededRng {
    inner: rand::rngs::StdRng,
    seed: Ghost<u64>,
    history: Ghost<Seq<u64>>,
}

impl SeededRng {
    /// The seed this generator was built from.
    pub(crate) closed spec fn spec_seed(self) -> u64 {
        self.seed@
    }

    /// The draws this generator has served so far.
    pub(crate) closed spec fn spec_history(self) -> Seq<u64> {
        self.history@
    }
}

/// Relies on rand's `StdRng::seed_from_u64` (via `SeedableRng`): one seed
/// always yields one generator state, on every machine. What each draw on
/// that state returns is named at the draw wrappers below.
#[verifier::external_body]
fn raw_from_seed(seed: u64) -> (r: rand::rngs::StdRng) {
    <rand::rngs::StdRng as rand::SeedableRng>::seed_from_u64(seed)
}

/// A fresh generator, tagged with its seed and an empty history.
pub(crate) fn rng_from_seed(seed: u64) -> (r: SeededRng)
    ensures
        r.spec_seed() == seed,
        r.spec_history() == Seq::<u64>::empty(),
{
    SeededRng { inner: raw_from_seed(seed), seed: Ghost(seed), history: Ghost(Seq::empty()) }
}

/// Relies on rand's `RngExt::random_ratio`: true with probability
/// `num/den`, never true for `num == 0`, always true for `num == den`, and
/// a function of the generator state and the arguments alone. The call
/// panics unless `0 < den` and `num <= den`.
#[verifier::external_body]
pub(crate) fn rng_ratio(r: &mut SeededRng, num: u32, den: u32) -> (b: bool)
    requires
        1 <= den,
        num <= den,
    ensures
        b == ratio_draw(old(r).spec_seed(), old(r).spec_history(), num, den),
        num == 0 ==> !b,
        num == den ==> b,
        final(r).spec_seed() == old(r).spec_seed(),
        final(r).spec_history() == old(r).spec_history().push(draw_code(num, den)),
{
    rand::RngExt::random_ratio(&mut r.inner, num, den)
}

/// Relies on rand's `RngExt::random_range` over `0..bound`: a value below
/// `bound`, a function of the generator state and the bound alone. The
/// call panics on an empty range.
#[verifier::external_body]
pub(crate) fn rng_below(r: &mut SeededRng, bound: u32) -> (d: u32)
    requires
        1 <= bound,
    ensures
        d == range_draw(old(r).spec_seed(), old(r).spec_history(), bound),
        d < bound,
        final(r).spec_seed() == old(r).spec_seed(),
        final(r).spec_history() == old(r).spec_history().push(draw_code(bound, 0)),
{
    rand::RngExt::random_range(&mut r.inner, 0..bound)
}

/// Extending a run of identical draws by one more of the same kind.
pub(crate) proof fn lemma_rep_push(code: u64, k: nat)
    ensures
        rep(code, k).push(code) == rep(code, k + 1),
{
    assert(rep(code, k).push(code) =~= rep(code, k + 1));
}

} // verus!
