//! The random numbers of Microsoft's C library.
use vstd::prelude::*;

verus! {

/// The state that follows `seed`.
pub open spec fn next_seed(seed: u32) -> u32 {
    ((seed * 214013 + 2531011) % 0x1_0000_0000) as u32
}

/// The number that a state gives: bits 16 to 30.
pub open spec fn draw(seed: u32) -> u32 {
    (seed / 0x1_0000) % 0x8000
}

/// The first `n` numbers that follow a seed.
pub open spec fn numbers(seed: u32, n: nat) -> Seq<u32>
    decreases n,
{
    if n == 0 {
        Seq::empty()
    } else {
        seq![draw(next_seed(seed))] + numbers(next_seed(seed), (n - 1) as nat)
    }
}

/// The generator behind `srand` and `rand`.
pub struct MsvcLcg {
    seed: u32,
}

impl View for MsvcLcg {
    type V = u32;

    closed spec fn view(&self) -> u32 {
        self.seed
    }
}

/// Generators with the same seed give the same numbers, however many, and every number is
/// from 0 to 32767.
pub proof fn law_same_seed_same_numbers(a: MsvcLcg, b: MsvcLcg, n: nat)
    requires
        a@ == b@,
    ensures
        numbers(a@, n) == numbers(b@, n),
        numbers(a@, n).len() == n,
        forall|i: int| 0 <= i < n ==> #[trigger] numbers(a@, n)[i] <= 0x7FFF,
{
    lemma_numbers_range(a@, n);
}

/// Each state is 214013 times the one before it, plus 2531011, modulo 2^32, and gives the
/// number in its bits 16 to 30. The first number comes from the state that follows the seed,
/// and the others are the numbers that follow that state.
pub proof fn law_numbers_recurrence(seed: u32, n: nat, state: u32)
    requires
        n > 0,
        state == (214013 * seed + 2531011) % 0x1_0000_0000,
    ensures
        numbers(seed, 0).len() == 0,
        numbers(seed, n).len() == n,
        numbers(seed, n)[0] == (state / 0x1_0000) % 0x8000,
        numbers(seed, n).skip(1) == numbers(state, (n - 1) as nat),
{
    lemma_numbers_range(seed, n);
    assert(state == next_seed(seed));
    assert(numbers(seed, n).skip(1) =~= numbers(state, (n - 1) as nat));
}

proof fn lemma_numbers_range(seed: u32, n: nat)
    ensures
        numbers(seed, n).len() == n,
        forall|i: int| 0 <= i < n ==> #[trigger] numbers(seed, n)[i] <= 0x7FFF,
    decreases n,
{
    if n > 0 {
        let rest = numbers(next_seed(seed), (n - 1) as nat);
        lemma_numbers_range(next_seed(seed), (n - 1) as nat);
        assert forall|i: int| 0 <= i < n implies #[trigger] numbers(seed, n)[i] <= 0x7FFF by {
            if i > 0 {
                assert(numbers(seed, n)[i] == rest[i - 1]);
            }
        }
    }
}

impl MsvcLcg {
    /// A generator with the given seed.
    pub fn new(seed: u32) -> (r: Self)
        ensures
            r@ == seed,
    {
        MsvcLcg { seed }
    }

    /// The next number, from 0 to 32767. It depends on the seed alone, so that generators
    /// with the same seed give the same numbers.
    pub fn rand(&mut self) -> (r: u32)
        ensures
            final(self)@ == next_seed(old(self)@),
            r == draw(next_seed(old(self)@)),
            final(self)@ == (214013 * old(self)@ + 2531011) % 0x1_0000_0000,
            r == (final(self)@ / 0x1_0000) % 0x8000,
            r <= 0x7FFF,
    {
        let product: u32 = self.seed.wrapping_mul(214013);
        let seed: u32 = product.wrapping_add(2531011);
        proof {
            let x = self.seed * 214013;
            assert(product == x % 0x1_0000_0000);
            vstd::arithmetic::div_mod::lemma_add_mod_noop(x, 2531011, 0x1_0000_0000);
            vstd::arithmetic::div_mod::lemma_small_mod(2531011, 0x1_0000_0000);
            assert(seed == (product + 2531011) % 0x1_0000_0000);
        }
        self.seed = seed;
        assert((seed >> 16) & 0x7FFF == (seed / 0x1_0000) % 0x8000) by (bit_vector);
        (seed >> 16) & 0x7FFF
    }
}

} // verus!
