pub mod audio;
pub mod calendar;
pub mod capture;
pub mod cli;
pub mod decode;
pub mod encode;
pub mod error;
pub mod icon;
pub mod mux;
pub mod native;
pub mod num;
pub mod pipeline;
pub mod recorder;
pub mod selector;
pub mod settings;
pub mod text;
pub mod tray;
pub mod watch;
