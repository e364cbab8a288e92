//! Renders AsciiDoc to PDF: the verified core of the pipeline.

pub mod asciidoc;
pub mod calendar;
pub mod cli;
pub mod decode;
pub mod document;
pub mod emit;
pub mod error;
pub mod exit;
pub mod fmt;
pub mod inline;
pub mod length;
pub mod mapper;
pub mod markup;
pub mod plan;
pub mod ports;
pub mod presentation;
pub mod presenter;
pub mod render;
pub mod resolution;
pub mod sandbox;
pub mod text;
pub mod theme;
pub mod typography;
