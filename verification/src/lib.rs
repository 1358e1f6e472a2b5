//! Game-state logic for streaming DOOM sessions into a block-game server.
pub mod protocol;
pub mod nbt;
pub mod item;
pub mod inventory;
pub mod session;
pub mod registry;
pub mod directory;
pub mod worker;
pub mod net;
pub mod queue;
pub mod util;
pub mod chat;
pub mod controller;
pub mod commands;
pub mod video;
pub mod lobby;
