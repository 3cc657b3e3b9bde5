//! The `:status[Label]{color=...}` badge: its colors.

pub mod directive;

pub use directive::StatusColor;
