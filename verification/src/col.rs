use crate::errors::CsvError;
use crate::parse_int::{int_text_val, parse_i64, parses_as_i64};
use crate::sortvec::{sort_f64_bits, sort_i64_vec, sorted_f64s, sorted_i64s};
use crate::values::{DataValue, DataValueModel, DtValue};
use vstd::prelude::*;

verus! {

/// One typed column: its name, its values in row order, the row count, and
/// a lazily filled cache of the ascending-sorted values.  The cache carries
/// the element count it was computed for as a validity tag; it is only
/// believed while the tag equals the current count.
#[derive(Debug)]
pub struct CsvCol<T> {
    pub col_name: String,
    pub values: Vec<T>,
    pub n_elements: usize,
    pub sorted_values: Option<(Vec<T>, usize)>,
}

impl<T> CsvCol<T> {
    /// The basic shape invariant: the stored count is the value count.
    pub open spec fn wf(&self) -> bool {
        self.n_elements == self.values@.len()
    }

    /// A column as construction leaves it: named, filled, count set, and no
    /// sorted snapshot yet.
    pub open spec fn is_fresh(&self, name: Seq<char>, vals: Seq<T>) -> bool {
        &&& self.col_name@ == name
        &&& self.values@ == vals
        &&& self.n_elements == vals.len()
        &&& self.sorted_values is None
    }
}

impl CsvCol<String> {
    /// As `is_fresh`, with text cells compared as character sequences.
    pub open spec fn is_fresh_text(&self, name: Seq<char>, vals: Seq<Seq<char>>) -> bool {
        &&& self.col_name@ == name
        &&& self.values.deep_view() == vals
        &&& self.n_elements == vals.len()
        &&& self.sorted_values is None
    }
}

impl CsvCol<u64> {
    /// The sorted cache, when marked valid, holds exactly the ascending
    /// reordering of the values.
    pub open spec fn cache_ok(&self) -> bool {
        match self.sorted_values {
            Some((c, tag)) => tag == self.n_elements ==> c@ == sorted_f64s(self.values@),
            None => true,
        }
    }

    /// Returns the ascending-sorted values (float bit patterns in the IEEE
    /// 754 total order), from the cache when its tag matches the element
    /// count, otherwise sorting afresh and filling the cache.
    pub fn get_sorted(&mut self) -> (r: Vec<u64>)
        requires
            old(self).wf(),
            old(self).cache_ok(),
        ensures
            r@ == sorted_f64s(old(self).values@),
            r@.len() == old(self).values@.len(),
            final(self).values == old(self).values,
            final(self).col_name == old(self).col_name,
            final(self).n_elements == old(self).n_elements,
            final(self).wf(),
            final(self).cache_ok(),
            final(self).sorted_values matches Some((c, tag)) && c@ == r@ && tag
                == final(self).n_elements,
    {
        proof {
            crate::sortvec::lemma_sorted_f64s_props(self.values@);
        }
        if let Some((cached, len)) = &self.sorted_values {
            if *len == self.n_elements {
                return cached.clone();
            }
        }
        let sorted = sort_f64_bits(&self.values);
        self.sorted_values = Some((sorted.clone(), sorted.len()));
        sorted
    }
}

impl CsvCol<i64> {
    /// The sorted cache, when marked valid, holds exactly the ascending
    /// reordering of the values.
    pub open spec fn cache_ok(&self) -> bool {
        match self.sorted_values {
            Some((c, tag)) => tag == self.n_elements ==> c@ == sorted_i64s(self.values@),
            None => true,
        }
    }

    /// Returns the ascending-sorted values, from the cache when its tag
    /// matches the element count, otherwise sorting afresh and filling the
    /// cache.
    pub fn get_sorted(&mut self) -> (r: Vec<i64>)
        requires
            old(self).wf(),
            old(self).cache_ok(),
        ensures
            r@ == sorted_i64s(old(self).values@),
            r@.len() == old(self).values@.len(),
            final(self).values == old(self).values,
            final(self).col_name == old(self).col_name,
            final(self).n_elements == old(self).n_elements,
            final(self).wf(),
            final(self).cache_ok(),
            final(self).sorted_values matches Some((c, tag)) && c@ == r@ && tag
                == final(self).n_elements,
    {
        proof {
            crate::sortvec::lemma_sorted_i64s_props(self.values@);
        }
        if let Some((cached, len)) = &self.sorted_values {
            if *len == self.n_elements {
                return cached.clone();
            }
        }
        let sorted = sort_i64_vec(&self.values);
        self.sorted_values = Some((sorted.clone(), sorted.len()));
        sorted
    }

    /// Builds an integer column from text cells, succeeding exactly when
    /// every cell is 64-bit integer text.
    pub fn from_str_list(cells: &Vec<String>, name: &str) -> (r: Option<CsvCol<i64>>)
        ensures
            r matches Some(c) ==> (cells_all_int(cells.deep_view()) && c.is_fresh(
                name@,
                cells_int_values(cells.deep_view()),
            )),
            r is None ==> !cells_all_int(cells.deep_view()),
    {
        let ghost cv = cells.deep_view();
        let mut values: Vec<i64> = Vec::new();
        let n = cells.len();
        let mut i: usize = 0;
        while i < n
            invariant
                i <= n,
                n == cells@.len(),
                cv == cells.deep_view(),
                cv.len() == n,
                values@.len() == i,
                forall|j: int|
                    0 <= j < i ==> parses_as_i64(#[trigger] cv[j]) && values@[j] == int_text_val(
                        cv[j],
                    ),
            decreases n - i,
        {
            let cell: &String = &cells[i];
            proof {
                assert(cv[i as int] == cells@[i as int]@);
            }
            match parse_i64(cell.as_str()) {
                Some(v) => {
                    values.push(v);
                },
                None => {
                    proof {
                        assert(!parses_as_i64(cv[i as int]));
                    }
                    return None;
                },
            }
            i = i + 1;
        }
        proof {
            assert(values@ =~= cells_int_values(cv));
        }
        let n_elements = values.len();
        Some(
            CsvCol {
                col_name: name.to_owned(),
                values,
                n_elements,
                sorted_values: None,
            },
        )
    }
}

// ---------------------------------------------------------------------------
// Datetime parsing, through the outside calendar crate.
// ---------------------------------------------------------------------------
/// What the outside ISO 8601 datetime parser yields for a string: the
/// instant as (seconds since the Unix epoch, milliseconds), or nothing when
/// the text is not an ISO 8601 datetime.  The result depends on the
/// characters alone.
pub uninterp spec fn datetime_parse(s: Seq<char>) -> Option<(i64, i16)>;

/// Relies on datetime's `LocalDateTime::from_str` (an ISO 8601 parser over
/// the characters alone) and `to_instant`/`seconds`/`milliseconds`, which
/// read the parsed calendar value back as plain integers.
#[verifier::external_body]
fn parse_datetime_cell(s: &str) -> (r: Option<(i64, i16)>)
    ensures
        r == datetime_parse(s@),
{
    match <datetime::LocalDateTime as core::str::FromStr>::from_str(s) {
        Ok(dt) => {
            let instant = dt.to_instant();
            Some((instant.seconds(), instant.milliseconds()))
        },
        Err(_) => None,
    }
}

pub open spec fn dt_from_pair(p: (i64, i16)) -> DtValue {
    DtValue { seconds: p.0, milliseconds: p.1 }
}

pub open spec fn cells_all_datetime(cv: Seq<Seq<char>>) -> bool {
    forall|i: int| 0 <= i < cv.len() ==> (#[trigger] datetime_parse(cv[i])) is Some
}

pub open spec fn cells_datetime_values(cv: Seq<Seq<char>>) -> Seq<DtValue> {
    Seq::new(cv.len(), |i: int| dt_from_pair(datetime_parse(cv[i])->0))
}

pub open spec fn cells_all_int(cv: Seq<Seq<char>>) -> bool {
    forall|i: int| 0 <= i < cv.len() ==> parses_as_i64(#[trigger] cv[i])
}

pub open spec fn cells_int_values(cv: Seq<Seq<char>>) -> Seq<i64> {
    Seq::new(cv.len(), |i: int| int_text_val(cv[i]) as i64)
}

/// Per-column configuration: whether the column must be parsed as
/// datetimes, and an optional date format.  The calendar crate in use
/// parses the ISO 8601 layouts and takes no custom format string, so the
/// format, when given, does not select a different parser.
#[derive(Debug, Default)]
pub struct ColConfig {
    pub date_format: Option<String>,
    pub as_date: bool,
}

pub open spec fn forced_datetime(config: Option<ColConfig>) -> bool {
    match config {
        Some(c) => c.as_date,
        None => false,
    }
}

pub open spec fn float_cells_usable(float_cells: Option<Vec<u64>>, n: nat) -> bool {
    match float_cells {
        Some(v) => v@.len() == n,
        None => false,
    }
}

impl CsvCol<DtValue> {
    /// Builds a datetime column from text cells, parsing every cell through
    /// the outside ISO 8601 parser; one unparsable cell fails the whole
    /// column.  The configured date format never reaches this point: the
    /// parser in use is format-independent.
    pub fn as_datetime(cells: &Vec<String>, name: &str) -> (r: Result<
        CsvCol<DtValue>,
        CsvError,
    >)
        ensures
            r matches Ok(c) ==> (cells_all_datetime(cells.deep_view()) && c.is_fresh(
                name@,
                cells_datetime_values(cells.deep_view()),
            )),
            r matches Err(e) ==> (!cells_all_datetime(cells.deep_view()) && (e matches
                CsvError::InvalidColumnType { name: en } && en@ == name@)),
    {
        let ghost cv = cells.deep_view();
        let mut values: Vec<DtValue> = Vec::new();
        let n = cells.len();
        let mut i: usize = 0;
        while i < n
            invariant
                i <= n,
                n == cells@.len(),
                cv == cells.deep_view(),
                cv.len() == n,
                values@.len() == i,
                forall|j: int|
                    0 <= j < i ==> (#[trigger] datetime_parse(cv[j])) is Some && values@[j]
                        == dt_from_pair(datetime_parse(cv[j])->0),
            decreases n - i,
        {
            let cell: &String = &cells[i];
            proof {
                assert(cv[i as int] == cells@[i as int]@);
            }
            match parse_datetime_cell(cell.as_str()) {
                Some(p) => {
                    values.push(DtValue { seconds: p.0, milliseconds: p.1 });
                },
                None => {
                    proof {
                        assert(datetime_parse(cv[i as int]) is None);
                    }
                    return Err(CsvError::InvalidColumnType { name: name.to_owned() });
                },
            }
            i = i + 1;
        }
        proof {
            assert(values@ =~= cells_datetime_values(cv));
        }
        let n_elements = values.len();
        Ok(
            CsvCol {
                col_name: name.to_owned(),
                values,
                n_elements,
                sorted_values: None,
            },
        )
    }
}

/// The closed union of the four concrete column kinds, chosen once by type
/// inference and never changed.
#[derive(Debug)]
pub enum ColType {
    Float(CsvCol<u64>),
    Integer(CsvCol<i64>),
    String(CsvCol<String>),
    Datetime(CsvCol<DtValue>),
}

impl ColType {
    pub open spec fn wf(&self) -> bool {
        match self {
            ColType::Float(c) => c.wf() && c.cache_ok(),
            ColType::Integer(c) => c.wf() && c.cache_ok(),
            ColType::String(c) => c.wf(),
            ColType::Datetime(c) => c.wf(),
        }
    }

    pub open spec fn name_spec(&self) -> Seq<char> {
        match self {
            ColType::Float(c) => c.col_name@,
            ColType::Integer(c) => c.col_name@,
            ColType::String(c) => c.col_name@,
            ColType::Datetime(c) => c.col_name@,
        }
    }

    /// The row count of the column.
    pub open spec fn col_len(&self) -> nat {
        match self {
            ColType::Float(c) => c.values@.len(),
            ColType::Integer(c) => c.values@.len(),
            ColType::String(c) => c.values@.len(),
            ColType::Datetime(c) => c.values@.len(),
        }
    }

    /// The uniform value held at a row.
    pub open spec fn value_model_at(&self, i: int) -> DataValueModel {
        match self {
            ColType::Float(c) => DataValueModel::Float(c.values@[i]),
            ColType::Integer(c) => DataValueModel::Integer(c.values@[i]),
            ColType::String(c) => DataValueModel::String(c.values@[i]@),
            ColType::Datetime(c) => DataValueModel::DateTime(c.values@[i]),
        }
    }

    pub fn name(&self) -> (r: &str)
        ensures
            r@ == self.name_spec(),
    {
        match self {
            ColType::Float(c) => c.col_name.as_str(),
            ColType::Integer(c) => c.col_name.as_str(),
            ColType::String(c) => c.col_name.as_str(),
            ColType::Datetime(c) => c.col_name.as_str(),
        }
    }

    /// Infers the column's type from its text cells.  A forced-datetime
    /// configuration parses every cell as a datetime and is the only way
    /// inference can fail; otherwise the candidates are tried in priority
    /// order integer, float, text, and the first whose parse accepts every
    /// cell wins.  The float attempt is decided by the `float_cells`
    /// argument: the cells' already-attempted float parse, one bit pattern
    /// per cell when every cell parsed as a float.
    pub fn from_values(
        cells: &Vec<String>,
        name: String,
        config: Option<ColConfig>,
        float_cells: Option<Vec<u64>>,
    ) -> (r: Result<ColType, CsvError>)
        ensures
            r matches Ok(col) ==> col.wf(),
            forced_datetime(config) ==> (if cells_all_datetime(cells.deep_view()) {
                r matches Ok(col) && col matches ColType::Datetime(c) && c.is_fresh(
                    name@,
                    cells_datetime_values(cells.deep_view()),
                )
            } else {
                r matches Err(e) && e matches CsvError::InvalidColumnType { name: en } && en@
                    == name@
            }),
            !forced_datetime(config) ==> r is Ok,
            !forced_datetime(config) && cells_all_int(cells.deep_view()) ==> (r matches Ok(col)
                && col matches ColType::Integer(c) && c.is_fresh(
                name@,
                cells_int_values(cells.deep_view()),
            )),
            !forced_datetime(config) && !cells_all_int(cells.deep_view()) && float_cells_usable(
                float_cells,
                cells.deep_view().len(),
            ) ==> (r matches Ok(col) && col matches ColType::Float(c) && c.is_fresh(
                name@,
                float_cells->0@,
            )),
            !forced_datetime(config) && !cells_all_int(cells.deep_view()) && !float_cells_usable(
                float_cells,
                cells.deep_view().len(),
            ) ==> (r matches Ok(col) && col matches ColType::String(c) && c.is_fresh_text(
                name@,
                cells.deep_view(),
            )),
    {
        if let Some(cfg) = &config {
            if cfg.as_date {
                return match CsvCol::<DtValue>::as_datetime(cells, name.as_str()) {
                    Ok(c) => Ok(ColType::Datetime(c)),
                    Err(e) => Err(e),
                };
            }
        }
        if let Some(c) = CsvCol::<i64>::from_str_list(cells, name.as_str()) {
            return Ok(ColType::Integer(c));
        }
        if let Some(fv) = float_cells {
            if fv.len() == cells.len() {
                let n_elements = fv.len();
                return Ok(
                    ColType::Float(
                        CsvCol {
                            col_name: name,
                            values: fv,
                            n_elements,
                            sorted_values: None,
                        },
                    ),
                );
            }
        }
        let values = cells.clone();
        let n_elements = values.len();
        proof {
            assert(values.deep_view() =~= cells.deep_view());
        }
        Ok(
            ColType::String(
                CsvCol {
                    col_name: name,
                    values,
                    n_elements,
                    sorted_values: None,
                },
            ),
        )
    }

    /// The forced-datetime entry: builds a datetime column when the
    /// configuration asks for one, and declines otherwise.
    pub fn as_date(cells: &Vec<String>, name: &str, config: &ColConfig) -> (r: Option<
        Result<CsvCol<DtValue>, CsvError>,
    >)
        ensures
            config.as_date <==> r is Some,
            r matches Some(inner) ==> ((inner matches Ok(c) ==> (cells_all_datetime(
                cells.deep_view(),
            ) && c.is_fresh(name@, cells_datetime_values(cells.deep_view())))) && (inner matches Err(
                e,
            ) ==> !cells_all_datetime(cells.deep_view()))),
    {
        if config.as_date {
            Some(CsvCol::<DtValue>::as_datetime(cells, name))
        } else {
            None
        }
    }

    /// Reads one row as a uniform value, failing exactly when the index is
    /// at or past the row count.
    pub fn data_as_value(&self, index: usize) -> (r: Result<DataValue, CsvError>)
        ensures
            index < self.col_len() ==> (r matches Ok(v) && v@ == self.value_model_at(index as int)),
            index >= self.col_len() ==> r matches Err(CsvError::OutOfRange),
    {
        match self {
            ColType::Float(c) => {
                if index < c.values.len() {
                    Ok(DataValue::Float(c.values[index]))
                } else {
                    Err(CsvError::OutOfRange)
                }
            },
            ColType::Integer(c) => {
                if index < c.values.len() {
                    Ok(DataValue::Integer(c.values[index]))
                } else {
                    Err(CsvError::OutOfRange)
                }
            },
            ColType::String(c) => {
                if index < c.values.len() {
                    Ok(DataValue::String(c.values[index].clone()))
                } else {
                    Err(CsvError::OutOfRange)
                }
            },
            ColType::Datetime(c) => {
                if index < c.values.len() {
                    Ok(DataValue::DateTime(c.values[index]))
                } else {
                    Err(CsvError::OutOfRange)
                }
            },
        }
    }

    /// Reads the rows `beg..end` as uniform values, for the rendering
    /// layer; fails exactly when the range reaches past the rows or is
    /// reversed.
    pub fn display_range(&self, beg: usize, end: usize) -> (r: Result<Vec<DataValue>, CsvError>)
        ensures
            end > self.col_len() || beg > end ==> r matches Err(CsvError::InvalidRange),
            end <= self.col_len() && beg <= end ==> (r matches Ok(v) && v@.len() == end - beg
                && forall|i: int|
                0 <= i < v@.len() ==> (#[trigger] v@[i])@ == self.value_model_at(beg + i)),
    {
        let len = self.len();
        if end > len || beg > end {
            return Err(CsvError::InvalidRange);
        }
        let mut out: Vec<DataValue> = Vec::new();
        let mut i: usize = beg;
        while i < end
            invariant
                beg <= i <= end,
                end <= self.col_len(),
                out@.len() == i - beg,
                forall|j: int| 0 <= j < out@.len() ==> (#[trigger] out@[j])@ == self.value_model_at(
                    beg + j,
                ),
            decreases end - i,
        {
            let v = match self.data_as_value(i) {
                Ok(v) => v,
                Err(_) => {
                    // dead arm: the whole range was checked against the
                    // row count before the loop
                    proof {
                        assert(false);
                    }
                    DataValue::Null
                },
            };
            out.push(v);
            i = i + 1;
        }
        Ok(out)
    }

    /// The row count.
    pub fn len(&self) -> (r: usize)
        ensures
            r == self.col_len(),
    {
        match self {
            ColType::Float(c) => c.values.len(),
            ColType::Integer(c) => c.values.len(),
            ColType::String(c) => c.values.len(),
            ColType::Datetime(c) => c.values.len(),
        }
    }
}

/// The byte length of a string's text as the machine measures it, the
/// unit column widths are measured in.
pub open spec fn display_byte_len(s: Seq<char>) -> usize {
    vstd::utf8::encode_utf8(s).len() as usize
}

/// The widest line, in bytes: the padding width of a rendered column.
pub fn max_display_width(lines: &Vec<String>) -> (r: usize)
    ensures
        forall|i: int| 0 <= i < lines@.len() ==> display_byte_len((#[trigger] lines@[i])@) <= r,
        lines@.len() == 0 ==> r == 0,
        lines@.len() > 0 ==> exists|i: int|
            0 <= i < lines@.len() && display_byte_len((#[trigger] lines@[i])@) == r,
{
    let mut r: usize = 0;
    let n = lines.len();
    let mut i: usize = 0;
    while i < n
        invariant
            i <= n,
            n == lines@.len(),
            forall|j: int| 0 <= j < i ==> display_byte_len((#[trigger] lines@[j])@) <= r,
            i == 0 ==> r == 0,
            i > 0 ==> exists|j: int|
                0 <= j < i && display_byte_len((#[trigger] lines@[j])@) == r,
        decreases n - i,
    {
        let line: &String = &lines[i];
        let w = line.as_str().len();
        proof {
            assert(w == display_byte_len(lines@[i as int]@));
        }
        if w > r {
            r = w;
        }
        i = i + 1;
    }
    r
}

} // verus!
