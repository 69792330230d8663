//! The two sources of randomness: the operating system's generator, for the
//! secrets that are handed out, and a fast generator seeded from it, for the
//! samples that only an estimate looks at.

use rand::rngs::OsRng;
use rand::seq::SliceRandom;
use rand::SeedableRng;
use rand_xorshift::XorShiftRng;
use vstd::prelude::*;

use crate::err::{Error, ErrorKind};

verus! {

#[verifier::external_type_specification]
#[verifier::external_body]
pub struct ExXorShiftRng(rand_xorshift::XorShiftRng);

/// What a uniform choice from `list` may return: one of its entries, or
/// nothing where it has none.
pub open spec fn chosen_from(list: Seq<String>, r: Option<&String>) -> bool {
    match r {
        Some(s) => list.contains(*s),
        None => list.len() == 0,
    }
}

/// `SliceRandom::choose` on the list, with `OsRng`: an entry of the list, or
/// `None` where the list is empty. Which entry is left open. `OsRng` panics
/// where the operating system cannot supply random bytes.
#[verifier::external_body]
fn choose_with_os_rng<'a>(list: &'a Vec<String>) -> (r: Option<&'a String>)
    ensures
        chosen_from(list@, r),
{
    list.choose(&mut OsRng)
}

/// `SliceRandom::choose` on the list, with the given `XorShiftRng`: an entry
/// of the list, or `None` where the list is empty. Which entry is left open.
#[verifier::external_body]
fn choose_with_xorshift<'a>(list: &'a Vec<String>, rng: &mut XorShiftRng) -> (r: Option<
    &'a String,
>)
    ensures
        chosen_from(list@, r),
{
    list.choose(rng)
}

/// `XorShiftRng::from_rng` with `OsRng`: a generator seeded by the operating
/// system, or the message of the error with which seeding failed.
#[verifier::external_body]
fn xorshift_from_os_rng() -> (r: Result<XorShiftRng, String>) {
    match XorShiftRng::from_rng(OsRng) {
        Ok(rng) => Ok(rng),
        Err(e) => Err(e.to_string()),
    }
}

/// A source of uniform choices from a list.
pub(crate) trait Source {
    /// One entry of the list, or `None` where the list is empty.
    fn pick<'a>(&mut self, list: &'a Vec<String>) -> (r: Option<&'a String>)
        ensures
            chosen_from(list@, r),
    ;
}

/// The source for secrets. It cannot be seeded and never repeats itself.
pub(crate) struct Secure;

impl Source for Secure {
    fn pick<'a>(&mut self, list: &'a Vec<String>) -> (r: Option<&'a String>) {
        choose_with_os_rng(list)
    }
}

/// The source for samples: fast and statistically uniform, seeded once from
/// the operating system.
pub(crate) struct Sampling {
    rng: XorShiftRng,
}

impl Sampling {
    /// A freshly seeded source. Fails if the operating system cannot supply
    /// the seed.
    pub(crate) fn seeded() -> (r: Result<Sampling, Error>)
        ensures
            r matches Err(e) ==> e.kind() == ErrorKind::RngInit,
    {
        Sampling::from_seeding(xorshift_from_os_rng())
    }

    /// The generator that this source draws from.
    pub(crate) closed spec fn generator(&self) -> XorShiftRng {
        self.rng
    }

    /// What becomes of an attempt to seed a generator: the source that
    /// draws from the generator, or an `RngInit` error with the message of
    /// the failure.
    pub(crate) fn from_seeding(outcome: Result<XorShiftRng, String>) -> (r: Result<Sampling, Error>)
        ensures
            match outcome {
                Ok(rng) => r matches Ok(source) && source.generator() == rng,
                Err(msg) => r matches Err(e) && e.kind() == ErrorKind::RngInit
                    && e.spec_message() == msg@,
            },
    {
        match outcome {
            Ok(rng) => Ok(Sampling { rng }),
            Err(msg) => Err(Error::with_kind(ErrorKind::RngInit, msg.as_str())),
        }
    }
}

impl Source for Sampling {
    fn pick<'a>(&mut self, list: &'a Vec<String>) -> (r: Option<&'a String>) {
        choose_with_xorshift(list, &mut self.rng)
    }
}

} // verus!
