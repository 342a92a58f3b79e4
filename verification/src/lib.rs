//! meusic: the logic of a music and internet-radio player.
pub mod text;
pub mod radio;
pub mod paths;
pub mod order;
pub mod library;
pub mod stations;
pub mod settings;
pub mod mpris;
pub mod tauri_mpris;
pub mod cover;
pub mod view;
pub mod playback;
pub mod mini;
