//! Mine AutoBackup: backs up selected Minecraft worlds into a zip archive
//! and sends it to Google Drive, on demand or on a schedule. This crate
//! holds the application's decisions, each with its contract; the desktop
//! shell performs the file, keyring and network work around them.
pub mod text;
pub mod url;
pub mod progress;
pub mod worlds;
pub mod walk;
pub mod config;
pub mod backup;
pub mod upload;
pub mod oauth;
pub mod paths;
