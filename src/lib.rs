//! Bulk upload engine for the FTX1 pack protocol: packs, frames, compression,
//! resume planning, work partitioning and the adaptive parallelism window.

pub mod bytes;
pub mod pack;
pub mod packer;
pub mod frame;
pub mod compress;
pub mod control;
pub mod entry;
pub mod resume;
pub mod partition;
pub mod sanitize;
pub mod text;
pub mod settings;
pub mod ui;
pub mod response;
pub mod retry;
pub mod unpack;

pub use entry::FileEntry;
pub use frame::{CompressionMode, FrameType};
pub use pack::{PackBuffer, ReadyPack};
pub use text::{format_bytes, join_remote_path};
pub use ui::DialogState;
