//! pinz: bulletin boards for the terminal.

pub mod app;
pub mod camera;
pub mod changes;
pub mod chrome;
pub mod cli;
pub mod clipboard;
pub mod commands;
pub mod coord;
pub mod disk;
pub mod editor;
pub mod files;
pub mod geometry;
pub mod gestures;
pub mod git;
pub mod input;
pub mod last_world;
pub mod laws;
pub mod loading_laws;
pub mod lock;
pub mod merge;
pub mod model;
pub mod naming;
pub mod paint;
pub mod palette;
pub mod pinfile;
pub mod pull;
pub mod pull_laws;
pub mod release;
pub mod report;
pub mod saving;
pub mod saving_laws;
pub mod screen;
pub mod session;
pub mod showing;
pub mod spacing;
pub mod stamps;
pub mod state;
pub mod store;
pub mod sync;
pub mod sync_laws;
pub mod text;
pub mod theme;
pub mod typing;
pub mod view;
pub mod wrap;
