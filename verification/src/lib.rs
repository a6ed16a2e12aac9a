//! A LAN file-sharing service: path confinement for the shared directory,
//! directory listings, server addresses, QR codes, device tracking and the
//! server's start/stop state.
pub mod base64;
pub mod commands;
pub mod device_tracker;
pub mod file_service;
pub mod foreign;
pub mod models;
pub mod network;
pub mod paths;
pub mod qr_service;
pub mod server;
pub mod size;
pub mod text;
