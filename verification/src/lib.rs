//! Verified core of a text-expansion engine.
//!
//! The library captures typed abbreviations between a trigger character and a
//! confirmation gesture, selects the expansion that applies to the focused
//! application, fills positional and named placeholders in the expansion
//! template, and plans the synthetic backspace/replay output. Platform
//! adapters (the global key hook, synthetic input, and the active-window
//! probe) live outside the library and exchange plain values with it.

pub mod capture;
pub mod engine;
pub mod select;
pub mod settings;
pub mod substitute;
pub mod template;
pub mod text;
