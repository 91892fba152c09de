//! Build recipes for images, compiled into rules for `make`.
//!
//! The library has two halves. One keeps the build items of a set of
//! packages and the graph of their dependencies, and finds the order in
//! which to build. The other takes the recipe of one image and lays its
//! steps out as a chain of stamped commands, which it writes as a makefile.

pub mod command;
pub mod config;
pub mod console;
pub mod context;
pub mod dag;
pub mod dependencies;
pub mod encoding;
pub mod item;
pub mod parse;
pub mod plugins;
pub mod schema;
pub mod shell;
pub mod stamp;
pub mod text;
pub mod work;

pub use crate::dependencies::Id;
