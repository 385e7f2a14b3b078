use vstd::prelude::*;

verus! {

/// Every failure a caller of this crate can observe.
///
/// The variants mirror the failure taxonomy of the columnar store:
/// `InvalidColumnType` is only reachable when a column that was forced to be
/// parsed as datetimes holds an unparsable cell; `OutOfRange` covers indexed
/// cell access past the row count; `MissingColumn` covers lookup of an
/// unknown column name; `InvalidQuantile` carries the bit pattern of the
/// rejected quantile level; `InvalidMetricType` covers statistics requested
/// on non-numeric columns; `EmptyColumn` covers statistics on zero rows;
/// `UnexpectedEndOfInput` is reserved for the ingestion layer; `OutOfLines`
/// and `InvalidRange` cover display-range requests past the data;
/// `ValueOverflow` makes an arithmetic overflow of the integer median
/// combination an explicit failure instead of a panic;
/// `Unimplemented` is the dedicated, observable error of the standard
/// deviation operation, for which no computation is defined.
#[derive(Debug)]
pub enum CsvError {
    InvalidColumnType { name: String },
    OutOfRange,
    MissingColumn { name: String },
    InvalidQuantile { value: u64 },
    InvalidMetricType { name: String },
    EmptyColumn,
    UnexpectedEndOfInput,
    OutOfLines { n: usize, len: usize },
    InvalidRange,
    ValueOverflow,
    Unimplemented,
}

} // verus!
