//! Converts a video into animated-image chunks that each fit a size budget.
//!
//! The library decides and its caller acts. It cuts the video into
//! segments, names the files, and says after each run of the encoder
//! whether the chunk is accepted, the segment is cut in two, or its quality
//! is lowered. Running the prober and the encoder, and deleting and
//! renaming files, is left to the caller.

pub mod convert;
pub mod decimal;
pub mod encode;
pub mod error;
pub mod naming;
pub mod probe;
pub mod progress;
pub mod ratio;
pub mod schedule;
pub mod status;
pub mod strategy;

pub use convert::validate_options;
pub use convert::Action;
pub use convert::Conversion;
pub use convert::ConvertOptions;
pub use convert::EncodeRequest;
pub use convert::FittedChunk;
pub use convert::Rename;
pub use convert::Verdict;
pub use encode::EncodeParams;
pub use error::Error;
pub use naming::chunk_output_path;
pub use naming::output_stem_from_args;
pub use naming::temp_output_path;
pub use probe::FrameRate;
pub use probe::VideoInfo;
pub use ratio::Ratio;
pub use schedule::Segment;
pub use strategy::InitialParams;
pub use strategy::Tuning;
