//! A mind-map editing engine: a tree of labelled, positioned nodes, with
//! hit testing, click / double-click / drag handling, keyboard shortcuts,
//! directional navigation and cascading deletion.
pub mod graph;
pub mod navigate;
pub mod session;
