//! Verified playback logic of a broadcast TV viewer.
pub mod speed;
pub mod audio_components;
pub mod timeline;
pub mod loader;
pub mod http;
pub mod index;
pub mod live;
pub mod projection;
pub mod limits;
pub mod packet_tail;
pub mod slots;
pub mod store;
pub mod input;
pub mod text;
pub mod settings;
pub mod diagnostics;
pub mod recording;
pub mod aac;
pub mod platform;
pub mod routing;
pub mod audio;
pub mod presenter;
pub mod supply;
pub mod video;
pub mod survey;
pub mod session;
pub mod comments;
pub mod schedule;
pub mod streams;
pub mod tables;
