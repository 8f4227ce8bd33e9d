//! Verified core of a live presentation console for an AzerothCore
//! Playerbots population: the lookups, the name tables and the poll-tick
//! diffing that turns successive database snapshots into narrated events.

pub mod character_info;
pub mod text;
pub mod names;
pub mod events;
pub mod db;
pub mod config;
pub mod dbc;
pub mod poller;
