//! Core of a small Minecraft-style voxel server: the framed wire codec,
//! the connection state machine's data, the chunk cache and region store,
//! and the deterministic parts of the terrain pipeline.

pub mod cache;
pub mod chunk;
pub mod chunk_packet;
pub mod config;
pub mod error_tracker;
pub mod game_loop;
pub mod join_game;
pub mod login;
pub mod nbt;
pub mod packet_log;
pub mod play;
pub mod player;
pub mod protocol;
pub mod region;
pub mod serialization;
pub mod state;
pub mod storage;
pub mod terrain;
pub mod text;
pub mod time;
pub mod varint;
pub mod world;
