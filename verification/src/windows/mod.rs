//! Shell integration on Windows: taskbar progress and overlay icons, and the
//! jump list of recent tracks. The library decides what to show; the caller
//! makes the shell calls.

pub mod taskbar;
