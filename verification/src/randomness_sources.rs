//! Boolean sources to feed the pipeline with: two that ask the operating
//! system, one that reads the mouse, and two predictable ones for trials.

use vstd::prelude::*;

verus! {

/// The operating system's random number generator, of the crate `rand`.
/// Nothing is known of what is inside it.
#[verifier::external_type_specification]
#[verifier::external_body]
pub struct ExOsRng(rand::OsRng);

/// The error of std's I/O, which `rand` reports when it cannot reach the
/// operating system's generator.
#[verifier::external_type_specification]
#[verifier::external_body]
pub struct ExIoError(std::io::Error);

/// Why a source could not be set up.
#[derive(Debug, Clone, Copy, PartialEq, Eq, Structural)]
pub enum SourceError {
    /// The operating system's generator could not be opened.
    OsRngUnavailable,
}

/// Calls `rand::OsRng::new`, which opens the operating system's generator or
/// reports why it could not. Which of the two happens is up to the system.
#[verifier::external_body]
fn os_rng_new() -> (opened: Result<rand::OsRng, std::io::Error>) {
    rand::OsRng::new()
}

/// Calls `rand::Rng::gen` for a `bool` on the operating system's generator,
/// which asks the system for fresh bytes and waits until it has them. Either
/// value may come back, and no two calls need agree; nothing is claimed of it.
#[verifier::external_body]
fn os_rng_gen_bool(rng: &mut rand::OsRng) -> (bit: bool) {
    rand::Rng::gen(rng)
}

/// The sum of all `bytes` under exclusive or.
pub open spec fn xor_fold(bytes: Seq<u8>) -> u8
    decreases bytes.len(),
{
    if bytes.len() == 0 {
        0
    } else {
        xor_fold(bytes.drop_last()) ^ bytes.last()
    }
}

/// How many of `bytes` are odd.
pub open spec fn odd_count(bytes: Seq<u8>) -> nat
    decreases bytes.len(),
{
    if bytes.len() == 0 {
        0
    } else if bytes.last() % 2 == 1 {
        odd_count(bytes.drop_last()) + 1
    } else {
        odd_count(bytes.drop_last())
    }
}

/// The fold of some bytes is odd exactly when an odd number of them are: so a
/// sample of the mouse is `true` when the odd bytes of the report are even in
/// number.
pub proof fn lemma_xor_fold_parity(bytes: Seq<u8>)
    ensures
        xor_fold(bytes) % 2 == odd_count(bytes) % 2,
    decreases bytes.len(),
{
    if bytes.len() > 0 {
        let front = bytes.drop_last();
        let last = bytes.last();
        let fold = xor_fold(front);
        lemma_xor_fold_parity(front);
        assert((fold ^ last) % 2 == (if fold % 2 == last % 2 {
            0u8
        } else {
            1u8
        })) by (bit_vector);
    }
}

/// A source that takes the position of the mouse cursor for its randomness.
pub struct MouseStream {}

impl MouseStream {
    /// A source that has read nothing yet. It keeps nothing between samples.
    pub fn new() -> (stream: Self) {
        MouseStream {  }
    }

    /// The sample that a report of the cursor's position gives: its bytes are
    /// folded with exclusive or, and the sample is whether the fold is even.
    pub fn poll(&mut self, mouse_position: &Vec<u8>) -> (bit: bool)
        ensures
            bit == (xor_fold(mouse_position@) % 2 == 0),
    {
        let mut fold: u8 = 0;
        let mut read: usize = 0;
        while read < mouse_position.len()
            invariant
                read <= mouse_position.len(),
                fold == xor_fold(mouse_position@.take(read as int)),
            decreases mouse_position.len() - read,
        {
            proof {
                assert(mouse_position@.take(read + 1).drop_last() =~= mouse_position@.take(
                    read as int,
                ));
            }
            fold = fold ^ mouse_position[read];
            read += 1;
        }
        proof {
            assert(mouse_position@.take(read as int) =~= mouse_position@);
        }
        fold % 2 == 0
    }
}

/// A source that hands on what the operating system's generator gives.
pub struct RandStream {
    rng: rand::OsRng,
}

impl RandStream {
    /// Opens the operating system's generator. Whether that succeeds is up
    /// to the system.
    pub fn new() -> (stream: Result<Self, SourceError>) {
        let opened = os_rng_new();
        Self::from_opened(opened)
    }

    /// One sample from the operating system, handed on as it came. Which
    /// value that is, is up to the system: the source adds nothing to it and
    /// takes nothing from it.
    pub fn poll(&mut self) -> (bit: bool) {
        os_rng_gen_bool(&mut self.rng)
    }
}

/// What two fair samples make of each other in a [`BiasedRandStream`]: `true`
/// only when both are, which happens a quarter of the time.
pub fn biased_sample(b1: bool, b2: bool) -> (product: bool)
    ensures
        product == (b1 && b2),
{
    b1 && b2
}

/// A source of the operating system's randomness that leans to `false`: three
/// samples in four.
pub struct BiasedRandStream {
    rng: rand::OsRng,
}

impl BiasedRandStream {
    /// Opens the operating system's generator. Whether that succeeds is up
    /// to the system.
    pub fn new() -> (stream: Result<Self, SourceError>) {
        let opened = os_rng_new();
        Self::from_opened(opened)
    }

    /// One sample: the [`biased_sample`] of two from the operating system.
    /// Which two those are, is up to the system; what is made of them is
    /// said there.
    pub fn poll(&mut self) -> (bit: bool) {
        let b1 = os_rng_gen_bool(&mut self.rng);
        let b2 = os_rng_gen_bool(&mut self.rng);
        biased_sample(b1, b2)
    }
}

/// A source that alternates between `true` and `false`.
pub struct SawtoothStream {
    switch: bool,
}

impl SawtoothStream {
    /// The sample handed out last; the next one is its opposite.
    pub closed spec fn switch(&self) -> bool {
        self.switch
    }

    /// A sawtooth whose first sample is `true`.
    pub fn new() -> (stream: Self)
        ensures
            stream.switch() == false,
    {
        SawtoothStream { switch: false }
    }

    /// A sawtooth whose first sample is the opposite of `switch`.
    pub fn with(switch: bool) -> (stream: Self)
        ensures
            stream.switch() == switch,
    {
        SawtoothStream { switch: switch }
    }

    /// The next sample: the opposite of the one before.
    pub fn poll(&mut self) -> (bit: bool)
        ensures
            bit == !old(self).switch(),
            final(self).switch() == bit,
    {
        self.switch = !self.switch;
        self.switch
    }
}

/// A source that hands out one value for ever. Whitening it gives nothing, so
/// a pipeline fed from it never produces a byte.
pub struct ConstantStream {
    constant: bool,
}

impl ConstantStream {
    /// The value that every sample has.
    pub closed spec fn constant(&self) -> bool {
        self.constant
    }

    /// A source of `true`.
    pub fn new() -> (stream: Self)
        ensures
            stream.constant() == true,
    {
        ConstantStream { constant: true }
    }

    /// A source of `constant`.
    pub fn with(constant: bool) -> (stream: Self)
        ensures
            stream.constant() == constant,
    {
        ConstantStream { constant: constant }
    }

    /// The next sample, which is the constant. The source stays as it is.
    pub fn poll(&mut self) -> (bit: bool)
        ensures
            bit == old(self).constant(),
            final(self).constant() == old(self).constant(),
    {
        self.constant
    }
}

impl RandStream {
    /// The generator that the samples are drawn from.
    pub closed spec fn generator(&self) -> rand::OsRng {
        self.rng
    }

    /// Makes a source of what opening the generator gave: a source that
    /// draws from the generator where there is one, and otherwise the word
    /// that none is to be had, whatever the system's reason was.
    pub fn from_opened(opened: Result<rand::OsRng, std::io::Error>) -> (stream: Result<
        Self,
        SourceError,
    >)
        ensures
            match opened {
                Ok(rng) => stream matches Ok(source) && source.generator() == rng,
                Err(_) => stream matches Err(error) && error == SourceError::OsRngUnavailable,
            },
    {
        match opened {
            Ok(rng) => Ok(RandStream { rng }),
            Err(_) => Err(SourceError::OsRngUnavailable),
        }
    }
}

impl BiasedRandStream {
    /// The generator that the samples are drawn from.
    pub closed spec fn generator(&self) -> rand::OsRng {
        self.rng
    }

    /// Makes a source of what opening the generator gave: a source that
    /// draws from the generator where there is one, and otherwise the word
    /// that none is to be had, whatever the system's reason was.
    pub fn from_opened(opened: Result<rand::OsRng, std::io::Error>) -> (stream: Result<
        Self,
        SourceError,
    >)
        ensures
            match opened {
                Ok(rng) => stream matches Ok(source) && source.generator() == rng,
                Err(_) => stream matches Err(error) && error == SourceError::OsRngUnavailable,
            },
    {
        match opened {
            Ok(rng) => Ok(BiasedRandStream { rng }),
            Err(_) => Err(SourceError::OsRngUnavailable),
        }
    }
}

} // verus!
