//! Ranking and result-selection core of a web search engine.
//!
//! The crate gathers the top candidates of an inverted-index scan with
//! bounded memory, re-ranks them with a diversity-aware demotion of
//! duplicate sites, URLs and titles, finds hosts similar to a set of seed
//! hosts in a web graph, and prepares results for display.
//!
//! Scores are exact fixed-point numbers in a caller-chosen unit; every
//! comparison the ranking makes is exact rational arithmetic, so the
//! selection behaviour is fully specified and proved.

pub mod score;
pub mod pqueue;
pub mod collector;
pub mod fastfield;
pub mod topdocs;
pub mod sorting;
pub mod text;
pub mod webgraph;
pub mod similar_sites;
pub mod prettify;
pub mod signal;
