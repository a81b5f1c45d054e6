//! The control window: what it shows and what its controls do.
//!
//! Drawing is left to the program. Here is what it draws: texts, lists of choices, and the state
//! that clicks and events change.

pub mod host;
pub mod labels;
pub mod previews;
pub mod selection;
pub mod settings;
pub mod thumbnail;
