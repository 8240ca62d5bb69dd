//! Sync-bias analysis for dance-game simfiles.

pub mod analyze;
pub mod audio;
pub mod beats;
pub mod bench;
pub mod cli;
pub mod codec;
pub mod compat;
pub mod estimate;
pub mod fingerprint;
pub mod fs_scan;
pub mod harness;
pub mod heat;
pub mod kernel;
pub mod matrix;
pub mod model;
pub mod naming;
pub mod number;
pub mod numeric;
pub mod parity;
pub mod paths;
pub mod peaks;
pub mod plot;
pub mod raster;
pub mod song;
pub mod sorting;
pub mod spectrum;
pub mod stats;
pub mod text;
pub mod trace;
pub mod trace_ctl;
