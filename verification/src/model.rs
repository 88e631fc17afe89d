//! The generators that come with the library, each with its blueprint.

pub mod bw;
pub mod delay;
pub mod delay_per_packet;
pub mod duplicate;
pub mod loss;

pub use bw::{
    BwTraceConfig, Forever, NormalizedBw, NormalizedBwConfig, RepeatedBwPattern,
    RepeatedBwPatternConfig, SawtoothBw, SawtoothBwConfig, StaticBw, StaticBwConfig, TraceBw,
    TraceBwConfig,
};
pub use delay::{
    DelayTraceConfig, RepeatedDelayPattern, RepeatedDelayPatternConfig, StaticDelay,
    StaticDelayConfig,
};
pub use delay_per_packet::{
    DelayPerPacketTraceConfig, LogNormalizedDelayPerPacket, LogNormalizedDelayPerPacketConfig,
    NormalizedDelayPerPacket, NormalizedDelayPerPacketConfig, RepeatedDelayPerPacketPattern,
    RepeatedDelayPerPacketPatternConfig, StaticDelayPerPacket, StaticDelayPerPacketConfig,
};
pub use duplicate::{
    DuplicateTraceConfig, RepeatedDuplicatePattern, RepeatedDuplicatePatternConfig,
    StaticDuplicate, StaticDuplicateConfig,
};
pub use loss::{
    LossTraceConfig, RepeatedLossPattern, RepeatedLossPatternConfig, StaticLoss, StaticLossConfig,
};
