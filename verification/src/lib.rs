//! CRI audio and video containers: `@UTF` tables, ACB cue sheets, AFS2
//! archives, HCA streams and USM movies.
//!
//! Every function states in its contract what it computes, over plain byte
//! sequences and the models declared beside it.

pub mod acb;
pub mod bytes;
pub mod float;
pub mod hca;
pub mod reader;
pub mod str_map;
pub mod text;
pub mod usm;
