//! Core game rules of Survival Cubed: items and tools, inventories, crafting,
//! player-written block text, entity kinds, the wire and save framings, saved
//! hosts and logins, password hashing, and the decisions behind the client's
//! menus and chat.

pub mod auth;
pub mod block;
pub mod client;
pub mod discovery;
pub mod entity;
pub mod inventory;
pub mod net;
pub mod protocol;
pub mod random;
pub mod recipe;
pub mod save;
pub mod text;
pub mod world;
