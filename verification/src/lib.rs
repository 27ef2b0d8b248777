//! Verified core of a Steam depot download and game-setup tool: a Steam
//! manifest (protobuf) reader, game search over an AppID list, download
//! planning, Goldberg emulator settings, PE architecture detection and
//! Steamless invocation rules.
pub mod appid;
pub mod commands;
pub mod download;
pub mod goldberg;
pub mod manifest;
pub mod steam;
pub mod steamless;
pub mod text;
