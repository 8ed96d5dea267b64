//! What holds of the emitted code as a whole.
pub mod bounds;
pub mod declarations;
pub mod deploy;
pub mod emission;
pub mod encoding;
pub mod host;
pub mod modules;
pub mod session;
pub mod shape;
pub mod storage;
