//! Automatic display configuration.
//!
//! A report of the display outputs (the text that `xrandr` prints) is read
//! into a topology; an ordered list of rules selects the arguments of the
//! configuration command for it; a watcher compares each new topology with
//! the one it last acted on and asks for a command only on change.

pub mod text;
pub mod topology;
pub mod parse;
pub mod rules;
pub mod watch;
