//! Live orientation synchronisation: a bounded ring of sensor samples on the
//! video clock, immutable time-indexed orientation windows, and the store that
//! publishes, selects and retires them.
//!
//! Real-valued quantities never enter this crate as machine floats. Components
//! of orientations and rates travel as IEEE-754 binary64 bit patterns, and
//! scale factors as integer fractions, so every decision made here is exact
//! integer arithmetic.

pub mod batch;
pub mod clock;
pub mod csv_quats;
pub mod fplay;
pub mod imu_line;
pub mod live_pix_fmt;
pub mod manager;
pub mod optical_flow;
pub mod quat;
pub mod render_live;
pub mod render_map_kind;
pub mod ring;
pub mod session;
pub mod stmap_live;
pub mod store;
pub mod time_quat;
pub mod transcode;
pub mod window;
