//! Batch editing of track metadata in video container files.
//!
//! Files are decoded from the probe tool's JSON report, grouped by the shape
//! of their track metadata, and an edit of one group's fingerprint is compiled
//! into one edit-tool invocation per member file.

pub mod text;
pub mod json;
pub mod file;
pub mod group;
pub mod order;
pub mod command;
pub mod track_operations;
pub mod table;
pub mod selection;
pub mod widgets;
pub mod popup;
pub mod session;
