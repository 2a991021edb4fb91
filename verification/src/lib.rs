//! Verified core of brp, a peer-to-peer screen-sharing participant: the decisions the window,
//! the settings file, and the audio backends make, stated and proved apart from the I/O around
//! them.
pub mod applications;
pub mod assoc;
pub mod backlog;
pub mod capture;
pub mod cli;
pub mod dirty;
pub mod graph;
pub mod grid;
pub mod handler;
pub mod identity;
pub mod idmap;
pub mod kinds;
pub mod launch;
pub mod link;
pub mod output;
pub mod presets;
pub mod process_tree;
pub mod popouts;
pub mod reconcile;
pub mod rows;
pub mod relaunch;
pub mod repaint;
pub mod selection;
pub mod sessions;
pub mod settings;
pub mod state;
pub mod start;
pub mod text;
pub mod tiles;
pub mod ui;
pub mod update;
pub mod visibility;
pub mod wake;
