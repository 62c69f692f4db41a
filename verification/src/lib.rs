//! The exact rules around the placement of time-stamped overlay comments
//! ("danmu") on a screen of scrolling lanes: how comments are read, which
//! source a text names, how many lanes a screen has and which lane a comment
//! takes.
//!
//! The motion of comments is floating-point arithmetic and is no part of
//! this library.
pub mod bilibili;
pub mod canvas;
pub mod cli;
pub mod danmu;
pub mod input_type;
pub mod number;
pub mod web;
pub mod xml_parser;

pub use canvas::{choose_lane, lane_count, Choice, Vacancy};
pub use danmu::{Danmu, DanmuType, DanmuView};
pub use input_type::{InputError, InputType, UrlParts};
pub use xml_parser::Parser;
