//! Game-agnostic pieces of a Monte-Carlo CFR solver for two-player
//! imperfect-information games: history condensing, observation tracking,
//! action abstraction, and the compressed blueprint with nearest-fit lookup.

pub mod history;
pub mod filter;
pub mod mapper;
pub mod tracker;
pub mod games;
pub mod codec;
pub mod blueprint;
pub mod driver;
pub mod encoding;
pub mod visibility;
