//! Text console subsystem for a small operating system: a character-grid
//! display driver with cursor and scroll management, a serial text sink, a
//! dispatcher that feeds both, and a binary-encoded configuration record
//! that decides which sinks are active at boot.

pub mod config;
pub mod console;
pub mod fill;
pub mod vga;
