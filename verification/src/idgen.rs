use vstd::prelude::*;

verus! {

/// The engine's source of candidate review ids. The contract is intentionally
/// empty: a generator promises no uniqueness; avoiding collisions with the
/// ids already in use is the engine's own job.
pub trait IdGenerator {
    fn generate(&mut self) -> u32;
}

/// Deterministic generator: hands out consecutive ids, wrapping around at the
/// top of the id range.
pub struct SequentialIdGenerator {
    pub next: u32,
}

impl IdGenerator for SequentialIdGenerator {
    fn generate(&mut self) -> u32 {
        let id = self.next;
        self.next = if id == u32::MAX {
            0
        } else {
            id + 1
        };
        id
    }
}

/// Generator for production use: draws ids uniformly from the whole id range.
pub struct RandomIdGenerator {}

impl IdGenerator for RandomIdGenerator {
    fn generate(&mut self) -> u32 {
        random_u32()
    }
}

/// Relies on rand::random: draws a value from the thread-local random
/// generator. Nothing is promised of the value that comes back.
#[verifier::external_body]
fn random_u32() -> u32 {
    rand::random::<u32>()
}

} // verus!
