//! IDM download monitor.

pub mod chart;
pub mod chart_laws;
pub mod clock;
pub mod config;
pub mod entry;
pub mod feed;
pub mod growl;
pub mod json;
pub mod laws;
pub mod message;
pub mod message_laws;
pub mod monitor;
pub mod report_laws;
pub mod screen;
pub mod speed;
pub mod store;
pub mod table;
pub mod text;
pub mod text_laws;
