//! Turn-based artillery game logic: skill loadouts, controls, the tile map,
//! turn order and the slot table of the network input host.

pub mod controls;
pub mod net;
pub mod skills;
pub mod game;
pub mod text;
pub mod map;
pub mod controller;
