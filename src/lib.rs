//! Multiplexed log viewing: lines are routed by regular expression into
//! bounded per-pattern histories, with a small view/scroll state machine
//! deciding what is shown.

/// Bounded buffer that overwrites its oldest element.
pub mod cb;

/// Compiled regular expressions.
pub mod pattern;

/// State of the viewer and of its panes.
pub mod states;

/// Container matcher
pub mod container;

/// Input widget
pub mod input;

/// Command line arguments
pub mod args;

/// Application: routing of lines and the view state machine.
pub mod app;

/// Key handling
pub mod handler;

/// Reading numbers and words out of text.
pub mod text;

/// Bar chart of match counts.
pub mod bars;
