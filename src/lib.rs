//! A DJ deck: a playback engine with cues, hot cues, scratching and pitch
//! control, the lock-step handoff of audio chunks to a real-time callback,
//! control-surface mapping, and a rekordbox catalogue reader.
//!
//! Speeds and sample positions are fixed-point numbers (see `speed::ONE`).
pub mod speed;
pub mod cursor;
pub mod engine;
pub mod playhead;
pub mod controller;
pub mod library;
pub mod numbers;
pub mod rekordbox;
pub mod ui;
pub mod xml;
