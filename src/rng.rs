use vstd::prelude::*;

verus! {

/// One step of the xorshift generator on its 64-bit state.
pub open spec fn xorshift(s: u64) -> u64 {
    let a = s ^ (s << 13u64);
    let b = a ^ (a >> 7u64);
    b ^ (b << 17u64)
}

/// Fast generator used to permute shuffle buffers; not cryptographic.
pub struct Rand(pub u64);

/// Relies on `SystemTime::now`: microseconds since the Unix epoch, or 0 when
/// the clock stands before the epoch. Nothing is promised of the value.
#[verifier::external_body]
fn micros_since_epoch() -> (r: u64) {
    std::time::SystemTime::now()
        .duration_since(std::time::UNIX_EPOCH)
        .map(|d| d.as_micros() as u64)
        .unwrap_or(0)
}

impl Rand {
    /// A generator seeded from the current time.
    pub fn with_seed() -> (r: Rand)
        ensures
            r.0 <= 0xFFFF_FFFF,
    {
        Rand::from_micros(micros_since_epoch())
    }

    /// A generator whose state is the low 32 bits of `micros`.
    pub fn from_micros(micros: u64) -> (r: Rand)
        ensures
            r.0 == micros & 0xFFFF_FFFFu64,
            r.0 <= 0xFFFF_FFFF,
    {
        let seed = micros & 0xFFFF_FFFFu64;
        assert(micros & 0xFFFF_FFFFu64 <= 0xFFFF_FFFFu64) by (bit_vector);
        Rand(seed)
    }

    /// Advances the state by one xorshift step and returns the new state.
    pub fn rng(&mut self) -> (r: u64)
        ensures
            final(self).0 == xorshift(old(self).0),
            r == final(self).0,
    {
        self.0 = self.0 ^ (self.0 << 13u64);
        self.0 = self.0 ^ (self.0 >> 7u64);
        self.0 = self.0 ^ (self.0 << 17u64);
        self.0
    }
}

} // verus!
