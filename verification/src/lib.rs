//! Verified core of the Lumen VIA Beeper simulator: VIA timer register
//! bookkeeping, the arpeggiator that multiplexes four virtual channels onto
//! two timer channels, the one-bit percussion player, and the mmml text
//! front end.

pub mod arpeggiator;
pub mod text;
pub mod via;
pub mod virtual_channel;
pub mod percussion;
pub mod piezo_model;
pub mod mml;
pub mod sequence;
pub mod cpu_load;
pub mod renderer;
