//! The logic behind a small rack-panel status display: what every page shows,
//! how frames are composed and sent to the panel, how host statistics are
//! parsed, sampled and judged. All input and output lives outside this crate.

pub mod color;
pub mod display;
pub mod font;
pub mod framebuffer;
pub mod header;
pub mod history;
pub mod host;
pub mod laws;
pub mod layout;
pub mod numbers;
pub mod pages;
pub mod panel;
pub mod rotation;
pub mod st7735;
pub mod stats;
pub mod storage;
pub mod text;
