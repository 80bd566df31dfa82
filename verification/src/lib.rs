//! Core engines of a terminal-resident resource monitor: the process table
//! (filter, stable sort, selection), the alert rules (arming lifecycle and
//! trigger evaluation), and the keyboard-driven interaction state machine.
//! Sampling the operating system and drawing the screen are left to the
//! surrounding application, which hands these engines plain values.

pub mod selection;
pub mod text;
pub mod process;
pub mod ordering;
pub mod snapshot;
pub mod alert;
pub mod parse;
pub mod info;
pub mod app;
