//! Verified core of the auto-normalization monitor of the VENUS beamline.

pub mod beams;
pub mod choices;
pub mod clock;
pub mod config;
pub mod crop;
pub mod editor;
pub mod files;
pub mod h5;
pub mod ipts;
pub mod job;
pub mod jobs;
pub mod labels;
pub mod laws;
pub mod norm;
pub mod notebook;
pub mod number;
pub mod order;
pub mod pass;
pub mod paths;
pub mod quoting;
pub mod runmap;
pub mod runner;
pub mod runs;
pub mod series;
pub mod settings;
pub mod spans;
pub mod table;
pub mod text;
pub mod timeline;
