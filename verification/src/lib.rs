use vstd::prelude::*;

pub mod annexb;
pub mod connections;
pub mod dock;
pub mod e2e;
pub mod encode;
pub mod fake_channels;
pub mod fake_server;
pub mod fixtures;
pub mod fmt;
pub mod frame_sink;
pub mod geometry;
pub mod golden;
pub mod input;
pub mod manager;
pub mod menu;
pub mod metablock;
pub mod options;
pub mod mp4;
pub mod nal_type;
pub mod params;
pub mod present;
pub mod profiles;
pub mod quality;
pub mod rbsp;
pub mod secrets;
pub mod services;
pub mod sps;
pub mod strip;
pub mod text;
pub mod time;
pub mod view;
pub mod windows;

verus! {
} // verus!
