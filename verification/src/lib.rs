//! A small embeddable game-state runtime: a serializable entity store plus a
//! deferred action scheduler that advances the simulated world one discrete
//! tick at a time.  A front end feeds input in and reads per-channel textual
//! output back; all state changes go through the mutation facade that the
//! scheduler hands to each running action.
//!
//! The runtime lives in [`ingame`], over the store ([`storage`], [`item`],
//! [`meta`]), the scheduler ([`actions`]) and the response channels
//! ([`response`]).  [`codec`] holds the persisted text format, written and
//! parsed by verified code and proved to round-trip.  The game layer —
//! rooms, actors, movement, world building and the line-oriented shell —
//! lives in [`room`], [`actor`], [`base`], [`genesis`], [`terminal`] and
//! [`terminal_genesis`].

pub mod actions;
pub mod actor;
pub mod assoc;
pub mod base;
pub mod codec;
pub mod error;
pub mod genesis;
pub mod ingame;
pub mod item;
pub mod meta;
pub mod response;
pub mod room;
pub mod storage;
pub mod strutil;
pub mod terminal;
pub mod terminal_genesis;
