//! A single-threaded scheduling runtime: systems run in ordered stages against a
//! store of keyed singleton resources, mutations are deferred through a command
//! queue, and events travel over bounded broadcast channels.

pub mod app;
pub mod commands;
pub mod events;
pub mod params;
pub mod scheduler;
pub mod shader;
pub mod storage;
pub mod system;
pub mod window;
pub mod world;
