use vstd::prelude::*;

pub mod state;
pub mod text;
pub mod digest;
pub mod wav;
pub mod dsp_contract;
pub mod grand_prix_bank;
pub mod grand_prix_schedule;
pub mod config;
pub mod powertrain;
pub mod commands;
pub mod bank;
pub mod grand_prix_manifest;
pub mod adsr;
pub mod mixer;
pub mod dsp_runtime;
pub mod ffi;
pub mod config_keys;
