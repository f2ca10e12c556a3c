//! Device status: the logic behind a status-bar widget that lists attached
//! USB serial boards, phones and removable drives.

pub mod text;
pub mod boards;
pub mod ids;
pub mod device;
pub mod serial;
pub mod output;
pub mod strmap;
pub mod extras;
pub mod cache;
