//! A catalog of installable plugins, served from storage backends that can
//! be stacked: a directory on disk, a remote store that is passed on, a
//! cache in front of another backend, and several backends served as one.
//!
//! [`interface`] says what every backend can do. [`filesystem`], [`proxy`],
//! [`cache`] and [`merge`] hold the backends; the two that need a disk or a
//! network take what was read as an argument and leave the reading to the
//! caller. [`grammar`] lays down the compact text form of a tree of
//! backends, [`cli`] reads and writes it, [`round_trip`] proves that the
//! two agree, and [`builder`] turns settings into backends.

pub mod text;
pub mod keyed_map;
pub mod store_plugin;
pub mod interface;
pub mod merge;
pub mod filesystem;
pub mod cache;
pub mod proxy;
pub mod builder;
pub mod grammar;
pub mod cli;
pub mod round_trip;
