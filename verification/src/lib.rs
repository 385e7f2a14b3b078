//! An in-memory columnar store over delimited tabular text: per-column type
//! inference (integer, float, text, datetime), generic columns with a lazily
//! cached sorted snapshot, and descriptive statistics (mean, median,
//! arbitrary quantile) with a per-column memo of computed results.
//!
//! Floating-point cells are carried as IEEE 754 bit patterns (`u64`); every
//! decision about them — ordering, quantile positions, validation — is made
//! here exactly on the bit patterns, while the few remaining rounding
//! operations (sums and value interpolation) are handed to the caller as
//! explicit [`statistics::StatPlan`] steps.

pub mod col;
pub mod csv;
pub mod errors;
pub mod fbits;
pub mod parse_int;
pub mod selection;
pub mod sortvec;
pub mod statistics;
pub mod values;

pub use col::ColConfig;
pub use col::ColType;
pub use col::CsvCol;
pub use csv::Csv;
pub use csv::CsvConfig;
pub use csv::StatsEntry;
pub use errors::CsvError;
pub use statistics::StatPlan;
pub use statistics::Statistics;
pub use values::DataValue;
pub use values::DataValueModel;
pub use values::DtValue;
