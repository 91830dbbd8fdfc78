use vstd::prelude::*;

use rand::distr::{Distribution, StandardUniform};
use rand::rngs::ThreadRng;
use rand::Rng;

verus! {

#[verifier::external_type_specification]
#[verifier::external_body]
pub struct ExThreadRng(ThreadRng);

/// Relies on `rand::rng`: a handle to the lazily seeded thread-local generator.
#[verifier::external_body]
fn thread_rng() -> ThreadRng {
    rand::rng()
}

/// Relies on `rand::Rng::random`: one value drawn from the standard distribution.
#[verifier::external_body]
fn draw<T>(rng: &mut ThreadRng) -> T where StandardUniform: Distribution<T> {
    rng.random()
}

/// A vector of `size` random values.
pub fn random_vec<T>(size: usize) -> (r: Vec<T>) where StandardUniform: Distribution<T>
    ensures
        r.len() == size,
{
    let mut rng = thread_rng();
    let mut values: Vec<T> = Vec::new();
    let mut i: usize = 0;
    while i < size
        invariant
            0 <= i <= size,
            values.len() == i,
        decreases size - i,
    {
        values.push(draw(&mut rng));
        i = i + 1;
    }
    values
}

} // verus!
