//! Verified core of an AUR helper and package downgrader: the scraping of
//! the package pages it reads, the decisions it takes, and the lines it prints.
pub mod text;
pub mod utils;
pub mod downgrade;
pub mod helper;
pub mod update;
pub mod cli;
