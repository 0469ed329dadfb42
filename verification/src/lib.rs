use vstd::prelude::*;

pub mod controller_clock;
pub mod doctor;
pub mod effects;
pub mod external_sync;
pub mod final_bus;
pub mod fsutil;
pub mod generative;
pub mod geometry;
pub mod harmony;
pub mod installer_contract;
pub mod live_performance;
pub mod loop_player;
pub mod master_strip;
pub mod midi_endpoint;
pub mod procfs;
pub mod scale;
pub mod sequencer;
pub mod tempo;
pub mod text;

verus! {

} // verus!
