//! A terminal reader for SVT Text-TV: page parsing, teletext rendering,
//! mosaic decoding and the interactive browser's state machine.

pub mod ansi;
pub mod cli;
pub mod config;
pub mod fetch;
pub mod html;
pub mod interactive;
pub mod json;
pub mod mosaic;
pub mod parse;
pub mod pixels;
pub mod render;
pub mod textutil;
