//! Watch a notes directory and run a configured shell command per file event.
//!
//! The verified core: splitting paths into components, matching an event's
//! path to the directory that holds it, classifying file-system events, and
//! expanding the `{TOKEN}` placeholders of a command template.
pub mod clock;
pub mod config;
pub mod executor;
pub mod path;
pub mod template;
pub mod text;
