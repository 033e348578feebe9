//! The random draws of the search, taken from the thread-local generator of
//! the `rand` crate.
//!
//! Three small wrappers make the calls; Verus takes their contracts on trust.
//! Each states only what holds of every outcome. Everything else in the crate
//! is proved for whatever these draws return.

use crate::genome::{is_printable, FIRST_PRINTABLE, LAST_PRINTABLE};
use crate::rate::MutationRate;
use rand::distributions::Uniform;
use rand::Rng;
use vstd::prelude::*;

verus! {

/// `Rng::gen_range` on `rand::thread_rng()`, over the half-open range from
/// `low` to `high`. The call panics on an empty range, which `requires` leaves
/// out; the draw lies in the range.
#[verifier::external_body]
fn uniform_index(low: usize, high: usize) -> (drawn: usize)
    requires
        low < high,
    ensures
        low <= drawn < high,
{
    rand::thread_rng().gen_range(low..high)
}

/// `Rng::sample` on `rand::thread_rng()` from `Uniform::new_inclusive(low, high)`.
/// The constructor panics where `low` exceeds `high`, which `requires` leaves
/// out; the draw lies between the two bounds, both of them possible.
#[verifier::external_body]
fn uniform_byte(low: u8, high: u8) -> (drawn: u8)
    requires
        low <= high,
    ensures
        low <= drawn <= high,
{
    rand::thread_rng().sample(Uniform::new_inclusive(low, high))
}

/// `Rng::gen_ratio` on `rand::thread_rng()`: true with a probability of
/// `numerator` in `denominator`. The call panics on a zero denominator and on a
/// numerator above the denominator, which `requires` leaves out. Its
/// documentation promises `true` where the two are equal and `false` for a
/// numerator of zero; nothing is promised of any other draw.
#[verifier::external_body]
fn bernoulli(numerator: u32, denominator: u32) -> (hit: bool)
    requires
        denominator > 0,
        numerator <= denominator,
    ensures
        numerator == denominator ==> hit,
        numerator == 0 ==> !hit,
{
    rand::thread_rng().gen_ratio(numerator, denominator)
}

/// A position drawn uniformly from the `max` positions that start at zero.
pub(crate) fn rand_int(max: usize) -> (index: usize)
    requires
        max > 0,
    ensures
        index < max,
{
    uniform_index(0, max)
}

/// A character drawn uniformly from the printable ones.
pub(crate) fn rand_char() -> (gene: char)
    ensures
        is_printable(gene),
{
    let code: u8 = uniform_byte(FIRST_PRINTABLE, LAST_PRINTABLE);
    code as char
}

/// Whether a mutation strikes, drawn with the probability `rate`. A certain
/// rate always strikes.
pub(crate) fn strikes(rate: MutationRate) -> (hit: bool)
    ensures
        rate.certain() ==> hit,
{
    bernoulli(rate.numerator(), rate.denominator())
}

} // verus!
