//! Verified core of a ClassiCube plugin that gives the local player a pet:
//! custom-model capture and slot bookkeeping, grid path finding, skin
//! helpers, chat-command parsing, relay peer tracking and the plugin's
//! lifecycle state machine.

pub mod custom_models;
pub mod pathfind;
pub mod text;
pub mod command;
pub mod relay;
pub mod skin;
pub mod entity;
pub mod lifecycle;
