//! Seeded, reseeding random source.
//!
//! Seeded from operating-system entropy mixed with the wall clock; every
//! 1,024 draws it reseeds by hashing 32 fresh operating-system bytes with the
//! previously stored mix.

use vstd::prelude::*;
use vstd::bytes::u64_to_le_bytes;

use crate::bytesutil::concat_bytes;
use crate::errors::CryptoError;
use crate::primitives::blake3_of;
use crate::primitives::blake3_hash32;
use crate::primitives::os_random_bytes;
use crate::primitives::stdrng_fill;
use crate::primitives::stdrng_from_seed;
use crate::primitives::unix_nanos;

verus! {

/// How many draws pass between two reseeds.
pub const RESEED_INTERVAL: u64 = 1024;

/// The successor of a draw counter; it wraps like the machine counter would.
pub open spec fn counter_next(c: u64) -> u64 {
    if c == u64::MAX {
        0u64
    } else {
        (c + 1) as u64
    }
}

/// Secure random generator with periodic reseeding.
pub struct SecureRandom {
    inner: rand::rngs::StdRng,
    counter: u64,
    last_mix: Vec<u8>,
}

impl SecureRandom {
    /// The number of draws made so far.
    pub closed spec fn counter_view(&self) -> u64 {
        self.counter
    }

    /// The stored reseed mix.
    pub closed spec fn mix_view(&self) -> Seq<u8> {
        self.last_mix@
    }

    /// The mix is always 32 bytes.
    pub open spec fn wf(&self) -> bool {
        self.mix_view().len() == 32
    }

    /// Build a generator seeded from 24 bytes of operating-system entropy and
    /// 8 bytes of wall-clock nanoseconds.
    pub fn new() -> (r: Result<SecureRandom, CryptoError>)
        ensures
            r matches Ok(s) ==> s.wf() && s.counter_view() == 0,
            r is Err ==> r == Err::<SecureRandom, CryptoError>(CryptoError::RandomFailed),
    {
        let entropy = os_random_bytes(24)?;
        let nanos = unix_nanos()?;
        let time_bytes = u64_to_le_bytes(nanos);
        let seed = concat_bytes(&entropy, &time_bytes);
        proof {
            vstd::bytes::lemma_auto_spec_u64_to_from_le_bytes();
        }
        let inner = stdrng_from_seed(&seed);
        let mut last_mix: Vec<u8> = Vec::new();
        let mut i: usize = 0;
        while i < 32
            invariant
                last_mix@.len() == i,
                i <= 32,
            decreases 32 - i,
        {
            last_mix.push(0u8);
            i = i + 1;
        }
        Ok(SecureRandom { inner, counter: 0, last_mix })
    }

    /// Replace the generator's seed by the BLAKE3 hash of 32 fresh
    /// operating-system bytes and the stored mix, and store the hash as the
    /// next mix.
    fn reseed(&mut self) -> (r: Result<(), CryptoError>)
        requires
            old(self).wf(),
        ensures
            final(self).wf(),
            final(self).counter_view() == old(self).counter_view(),
            r matches Ok(u) ==> exists|fresh: Seq<u8>|
                fresh.len() == 32 && final(self).mix_view() == blake3_of(
                    fresh + old(self).mix_view(),
                ),
            r is Err ==> r == Err::<(), CryptoError>(CryptoError::RandomFailed) && *final(self)
                == *old(self),
    {
        let fresh = match os_random_bytes(32) {
            Ok(b) => b,
            Err(_) => {
                return Err(CryptoError::RandomFailed);
            },
        };
        let material = concat_bytes(&fresh, &self.last_mix);
        let seed = blake3_hash32(&material);
        self.inner = stdrng_from_seed(&seed);
        self.last_mix = seed;
        Ok(())
    }

    /// Fill the buffer with random bytes, reseeding on every 1,024th draw:
    /// the new seed and mix are then the BLAKE3 hash of 32 fresh
    /// operating-system bytes and the old mix. The buffer keeps its length;
    /// one draw is counted.
    pub fn fill_bytes(&mut self, dest: &mut Vec<u8>) -> (r: Result<(), CryptoError>)
        requires
            old(self).wf(),
        ensures
            final(self).wf(),
            r is Ok ==> final(dest)@.len() == old(dest)@.len() && final(self).counter_view()
                == counter_next(old(self).counter_view()),
            (r is Ok && old(self).counter_view() % RESEED_INTERVAL == 0) ==> (exists|
                fresh: Seq<u8>,
            |
                fresh.len() == 32 && final(self).mix_view() == blake3_of(
                    fresh + old(self).mix_view(),
                )),
            (r is Ok && old(self).counter_view() % RESEED_INTERVAL != 0) ==> final(self).mix_view()
                == old(self).mix_view(),
            r is Err ==> r == Err::<(), CryptoError>(CryptoError::RandomFailed) && *final(dest)
                == *old(dest) && final(self).counter_view() == old(self).counter_view()
                && final(self).mix_view() == old(self).mix_view(),
    {
        if self.counter % RESEED_INTERVAL == 0 {
            self.reseed()?;
        }
        let filled = stdrng_fill(&mut self.inner, dest.len());
        *dest = filled;
        if self.counter == u64::MAX {
            self.counter = 0;
        } else {
            self.counter = self.counter + 1;
        }
        Ok(())
    }
}

} // verus!
