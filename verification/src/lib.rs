//! Core of an interactive viewer for large line-oriented log corpora.
//!
//! The crate covers the two subsystems that carry the viewer's logic: the
//! match index (an ordered, query-rebuildable index over substring matches,
//! with exact / nearest / next / previous lookups) and the viewport
//! controller (a virtualized-list scroller tracking per-row heights).  A
//! word-boundary text wrapper supports both.  Terminal rendering, event
//! decoding and log parsing live outside this crate and talk to it through
//! plain values.

pub mod controller;
pub mod display_data;
pub mod loglevel;
pub mod match_index;
pub mod quick;
pub mod search;
pub mod table;
pub mod text_utils;
pub mod viewport;
