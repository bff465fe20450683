//! Game-room logic of a geography guessing game: player colors, rooms and
//! their members, the events that rooms broadcast, the registry that ties
//! clients to rooms, and the drawing of random road points.

pub mod api;
pub mod assoc;
pub mod colors;
pub mod config;
pub mod context;
pub mod engine;
pub mod error;
pub mod event;
pub mod geo;
pub mod handle;
pub mod name_gen;
pub mod random;
pub mod regions;
pub mod room;
pub mod sampler;
pub mod srgb;
pub mod streetview;
