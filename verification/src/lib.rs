//! Placement and transfer bookkeeping for moving plot files from a staging
//! directory onto capacity-limited destination volumes.
//!
//! Everything here works on plain values: byte counts, file names and volume
//! paths. Reading directories, copying data and sleeping are left to the
//! caller, which reports what it saw and carries out what is decided here.

pub mod band;
pub mod claims;
pub mod eviction;
pub mod names;
pub mod orchestrator;
pub mod placement;
pub mod run;
pub mod show;
pub mod throttle;
pub mod userset;
pub mod volume;

pub use band::{is_current_generation, TOLERANCE_BYTES};
pub use claims::ClaimSet;
pub use eviction::{plan_eviction, EvictionPlan};
pub use names::{is_plot, is_stray, remove_tmp, scan_plot};
pub use orchestrator::{
    Action, Completion, Orchestrator, Transfer, BACKOFF_SECONDS, POLL_SECONDS,
};
pub use placement::Placement;
pub use run::Phase;
pub use show::{DiskInfo, DiskState, InventoryError, ShowInfos};
pub use throttle::{ChunkReport, TransferMeter, CHUNK_BYTES, PROGRESS_INTERVAL};
pub use userset::{FinalDir, UserSet};
