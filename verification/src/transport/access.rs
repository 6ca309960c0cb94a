//! Fresh randomness for a password exchange.

use super::identity::Error;
use crate::crypto::random_bytes;
use vstd::prelude::*;

verus! {

/// Randomness for one exchange. Never reused: a repeated seed gives the
/// password away.
pub struct Seed(pub [u8; 64]);

/// The seed made of 64 drawn bytes, if they could be drawn.
pub fn seed_of(drawn: Option<Vec<u8>>) -> (seed: Result<Seed, Error>)
    requires
        drawn matches Some(bytes) ==> bytes@.len() == 64,
    ensures
        match (drawn, seed) {
            (Some(bytes), Ok(seed)) => seed.0@ == bytes@,
            (None, Err(Error::Config(why))) => why@
                == "the system random number generator failed"@,
            _ => false,
        },
{
    match drawn {
        Some(bytes) => {
            let mut seed: [u8; 64] = [0; 64];
            let mut i: usize = 0;
            while i < 64
                invariant
                    i <= 64,
                    bytes@.len() == 64,
                    forall|j: int| 0 <= j < i ==> seed@[j] == bytes@[j],
                decreases 64 - i,
            {
                seed[i] = bytes[i];
                i = i + 1;
            }
            assert(seed@ =~= bytes@);
            Ok(Seed(seed))
        },
        None => Err(Error::Config("the system random number generator failed".to_owned())),
    }
}

/// Draw a seed.
pub fn seed() -> (seed: Result<Seed, Error>)
    ensures
        seed matches Err(error) ==> (error matches Error::Config(why) && why@
            == "the system random number generator failed"@),
{
    seed_of(random_bytes(64))
}

}
