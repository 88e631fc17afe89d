//! Generators of network-condition traces: time-ordered segments that say how
//! the bandwidth, the delay, the loss and the duplication of a link change,
//! for feeding network emulators.
//!
//! A *generator* is pulled for one segment at a time until it hands out
//! nothing, and from then on it hands out nothing for good. A *blueprint* is
//! the plain description of a generator: it is filled field by field, and any
//! number of generators can be made from it, each starting in the same state.
//! A *repeated pattern* walks a list of blueprints again and again and hands
//! out what the generators made from them hand out.
//!
//! What a generator does is a function of its state ([`Trace`]): one spec
//! function tells what the next pull hands out, another what state it leaves
//! behind. The contracts of the library are stated over these two, so the
//! whole stream that a generator will ever hand out is fixed by the state in
//! which its blueprint starts it.
//!
//! The library counts in whole numbers: rates in bits per second
//! ([`Bandwidth`]), spans in nanoseconds ([`Duration`]) and shares in parts
//! per billion ([`Ratio`]). It draws no random samples itself: a generator
//! that needs them is handed a [`SampleSource`].
//!
//! Traces of packet opportunities, as the emulator mahimahi reads them, are
//! written from any bandwidth generator ([`Mahimahi`]) and read as the
//! blueprint of one ([`load_mahimahi_trace`]).

pub mod bandwidth;
pub mod duration;
pub mod interop;
pub mod mahimahi;
pub mod model;
pub mod ratio;
pub mod repeat;
pub mod sample;
pub mod trace;

pub use bandwidth::Bandwidth;
pub use duration::{Delay, Duration};
pub use mahimahi::{load_mahimahi_trace, Mahimahi, MahimahiExt};
pub use ratio::Ratio;
pub use sample::{Noiseless, SampleSource};
pub use trace::{
    BwTrace, DelayPerPacketTrace, DelayTrace, DuplicatePattern, DuplicateTrace, LossPattern,
    LossTrace, Trace, TraceConfig,
};
