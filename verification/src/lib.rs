//! The find-and-replace core of the Scribobulate Markdown editor: the preview's matcher,
//! the map from a match back to buffer offsets, the search-in-selection arithmetic, the
//! per-field histories, and the small state machines the find bar and the status bar
//! run on. Everything here is GTK-free; the widgets that drive it live outside the crate.

pub mod backing;
pub mod bodytext;
pub mod cache;
pub mod findbar;
pub mod history;
pub mod hits;
pub mod livepreview;
pub mod matcher;
pub mod options;
pub mod readout;
pub mod scope;
pub mod status;
pub mod toast;
pub mod unicode;
pub mod wrapbox;
