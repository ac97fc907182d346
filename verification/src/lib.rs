//! The decision core of the ConectDesk service agent.

pub mod actions;
pub mod agent;
pub mod api;
pub mod base64;
pub mod branding;
pub mod command;
pub mod devices;
pub mod disks;
pub mod feed;
pub mod health;
pub mod inventory;
pub mod json;
pub mod outside;
pub mod processes;
pub mod sessions;
pub mod settings;
pub mod sysinfo;
pub mod text;
pub mod update;
pub mod watchdog;
pub mod wol;
