pub mod banner;
pub mod log;
pub mod packages;
pub mod status;
