//! USM containers: video and audio streams behind tables of metadata.

pub mod build_law;
pub mod builder;
pub mod cell_law;
pub mod chunk_law;
pub mod extractor;
pub mod front_law;
pub mod header;
pub mod mask;
pub mod mask_law;
pub mod meta_law;
pub mod metadata;
pub mod name_law;
pub mod place_law;
pub mod table;

pub use builder::{UsmBuilder, UsmBuilderError};
pub use extractor::{extract_usm_to_memory, ExtractedUsmStream};
pub use metadata::{read_metadata, Metadata, MetadataError};
pub use table::UsmError;
