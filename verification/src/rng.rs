use vstd::prelude::*;

verus! {

/// Probabilities are fixed-point fractions of this denominator: a
/// vulnerability of `PROB_DEN` is certainty, `PROB_DEN / 2` is one half.
pub const PROB_DEN: u64 = 1_000_000;

/// Multiplier of the linear-congruential step.
pub const RNG_MUL: u64 = 6364136223846793005;

/// Increment of the linear-congruential step.
pub const RNG_INC: u64 = 1442695040888963407;

/// One step of the linear-congruential generator, modulo 2^64.
pub open spec fn rng_step(s: u64) -> u64 {
    (((s as int) * (RNG_MUL as int) + (RNG_INC as int)) % 0x10000000000000000) as u64
}

/// The probability drawn from state `s`: a value in `[0, PROB_DEN]`.
pub open spec fn draw_of(s: u64) -> u64 {
    ((rng_step(s) as int) % ((PROB_DEN as int) + 1)) as u64
}

/// The value below `span` drawn from state `s`.
pub open spec fn draw_below_of(s: u64, span: u64) -> u64 {
    ((rng_step(s) as int) % (span as int)) as u64
}

/// The deterministic pseudo-random source.  Every stochastic operation of the
/// simulation takes the generator explicitly, so a run is reproducible from
/// its seed.
pub struct Rng {
    pub state: u64,
}

impl Rng {
    pub fn new(seed: u64) -> (r: Rng)
        ensures
            r.state == seed,
    {
        Rng { state: seed }
    }

    /// Advance the generator by one linear-congruential step.
    pub fn step(&mut self)
        ensures
            final(self).state == rng_step(old(self).state),
    {
        assert((self.state as int) * (RNG_MUL as int) + (RNG_INC as int)
            < 0x100000000000000000000000000000000) by (nonlinear_arith)
            requires
                self.state <= 0xffffffffffffffff,
        ;
        let wide: u128 = (self.state as u128) * (RNG_MUL as u128) + (RNG_INC as u128);
        self.state = (wide % 0x10000000000000000u128) as u64;
    }

    /// Draw a probability in `[0, PROB_DEN]`.
    pub fn draw(&mut self) -> (r: u64)
        ensures
            final(self).state == rng_step(old(self).state),
            r == draw_of(old(self).state),
            r <= PROB_DEN,
    {
        self.step();
        self.state % (PROB_DEN + 1)
    }

    /// Draw a value in `[0, span)`.
    pub fn draw_below(&mut self, span: u64) -> (r: u64)
        requires
            span >= 1,
        ensures
            final(self).state == rng_step(old(self).state),
            r == draw_below_of(old(self).state, span),
            r < span,
    {
        self.step();
        self.state % span
    }
}

} // verus!
