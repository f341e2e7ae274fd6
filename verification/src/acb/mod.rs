//! ACB cue sheets and the `@UTF` tables they are made of.

pub mod afs;
pub mod builder;
pub mod consts;
pub mod cue_sheet;
pub mod extract_law;
pub mod extractor;
pub mod layout_law;
pub mod music_law;
pub mod play_law;
pub mod round_trip;
pub mod sheet_law;
pub mod sheet_model;
pub mod utf;
pub mod walk_law;

pub use afs::{AfsArchive, AfsArchiveBuilder, AfsError};
pub use builder::{BuilderError, ColumnDef, UtfTableBuilder};
pub use cue_sheet::{AcbBuilder, TrackInput};
pub use extractor::{
    extract_acb_to_memory, extract_acb_unique_to_memory, AcbCueRef, ExtractError,
    ExtractedAcbTrack, ExtractedTrackFile, Track, TrackList, UniqueWaveform,
};
pub use sheet_model::HcaTrackInfo;
pub use utf::{UtfError, UtfTable, Value, ValueMap};
