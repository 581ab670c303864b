//! Modpacks: importing them, and keeping an instance up to date with one.
pub mod curseforge;
pub mod github;
pub mod import;
