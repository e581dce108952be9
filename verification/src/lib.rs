//! The decision logic of a Drive client: naming, paths, paging, block reads,
//! uploads, moves, caches, public links and sharing rules, each with a contract
//! that Verus proves.

pub mod addresses;
pub mod batching;
pub mod cache;
pub mod content;
pub mod devices;
pub mod digest;
pub mod drafts;
pub mod drive_cache;
pub mod dtos;
pub mod enumerate;
pub mod error;
pub mod event_manager;
pub mod events;
pub mod ids;
pub mod key_walk;
pub mod moves;
pub mod names;
pub mod node;
pub mod node_build;
pub mod order;
pub mod paging;
pub mod photo_library;
pub mod photos;
pub mod pipeline;
pub mod public_urls;
pub mod revision;
pub mod sealing;
pub mod shares;
pub mod sharing;
pub mod single_flight;
pub mod storing;
pub mod text;
pub mod thumbnails;
pub mod time;
pub mod transport;
pub mod tree;
pub mod upload;
pub mod visitor;
