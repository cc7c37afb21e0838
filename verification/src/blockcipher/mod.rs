//! Generic block-cipher building blocks.
pub mod feistel;

pub use feistel::{
    Feistel, FeistelBuilder, FeistelF, FeistelFBuilder, FeistelRoundState, FStepTrace,
    KeySchedule, KeyScheduleBuilder, RoundKeys,
};
