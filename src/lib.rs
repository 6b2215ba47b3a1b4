//! FASTQ records: a validating four-line parser and exact quality-score
//! aggregation (per record, per collection, per position, and a chunked
//! parallel reduction that agrees with the sequential one).
//!
//! Averages are exact: a `Ratio` holds a numerator and a positive
//! denominator, and callers turn it into a float where they need one.

pub mod average;
pub mod parallel;
pub mod parser;
pub mod position;
pub mod record;
pub mod score;

pub use average::{get_average_quality_score, scaled_mean_sum};
pub use parallel::{
    rayon_get_average_quality_score, rayon_get_average_quality_score_chunked, PARALLEL_CHUNK_LEN,
};
pub use parser::{parse_lines, FastqParser, ParseError};
pub use position::{average_quality_at_index, get_index_scores_and_count};
pub use record::{FastqFile, Record};
pub use score::{
    calculate_fastq_quality_score, convert_ascii_to_score, quality_total, scaled_quality_mean,
    AggregationError, Ratio, MEAN_SCALE, PHRED_OFFSET,
};
