//! A fast, pytest-compatible test collector and runner: everything that can be
//! decided without touching the file system or starting a process.

pub mod changes;
pub mod collector;
pub mod commands;
pub mod config;
pub mod daemon;
pub mod defs;
pub mod discover;
pub mod document;
pub mod emit;
pub mod facts;
pub mod fixtures;
pub mod glob;
pub mod graph;
pub mod guards;
pub mod impact;
pub mod inherit;
pub mod keyword;
pub mod model;
pub mod names;
pub mod options;
pub mod params;
pub mod path;
pub mod python;
pub mod resolve;
pub mod runner;
pub mod scan;
pub mod schedule;
pub mod symbols;
pub mod syntax;
pub mod table;
pub mod text;
