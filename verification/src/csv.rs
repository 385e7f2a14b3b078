use crate::col::{
    cells_all_datetime, cells_all_int, cells_datetime_values, cells_int_values, ColConfig, ColType,
};
use crate::errors::CsvError;
use crate::statistics::{same_col_data, StatPlan, Statistics};
use crate::values::{DataValue, DataValueModel};
use vstd::prelude::*;
use vstd::string::StrSliceExecFns;

verus! {

/// Ingestion configuration: the separator and header-skip count are
/// consumed by the reading layer; `parser_as_date` maps column names to a
/// forced-datetime request with an optional date format (first match by
/// name wins).
pub struct CsvConfig {
    pub separator: char,
    pub header: Option<usize>,
    pub parser_as_date: Option<Vec<(String, Option<String>)>>,
}

/// The per-column memo of already-computed statistics.  A quantile is
/// parameterized, so it is never cached.
#[derive(Debug, Default)]
pub struct StatsEntry {
    pub mean: Option<DataValue>,
    pub median: Option<DataValue>,
    pub std_dev: Option<DataValue>,
}

/// The columnar store: the typed columns in input order, their shared row
/// count, the header names, and the statistics cache, keyed by column name
/// with the first match winning.
#[derive(Debug)]
pub struct Csv {
    pub cols: Vec<ColType>,
    pub n_cols: usize,
    pub n_rows: usize,
    pub header: Vec<String>,
    pub cache: Vec<(String, StatsEntry)>,
}

/// Compares two strings by their characters.
pub fn str_eq(a: &str, b: &str) -> (r: bool)
    ensures
        r == (a@ == b@),
{
    let n = a.unicode_len();
    let m = b.unicode_len();
    if n != m {
        return false;
    }
    let mut i: usize = 0;
    while i < n
        invariant
            i <= n,
            n == a@.len(),
            n == b@.len(),
            forall|j: int| 0 <= j < i ==> a@[j] == b@[j],
        decreases n - i,
    {
        if a.get_char(i) != b.get_char(i) {
            return false;
        }
        i = i + 1;
    }
    proof {
        assert(a@ =~= b@);
    }
    true
}

// ---------------------------------------------------------------------------
// First-match lookups, as one shape: a recursive scan from an index.
// ---------------------------------------------------------------------------
/// The first column at or after `i` whose name is `name`.
pub open spec fn col_index_from(cols: Seq<ColType>, name: Seq<char>, i: int) -> Option<int>
    decreases cols.len() - i,
{
    if i >= cols.len() {
        None
    } else if cols[i].name_spec() == name {
        Some(i)
    } else {
        col_index_from(cols, name, i + 1)
    }
}

/// The first cache entry at or after `i` stored under `name`.
pub open spec fn cache_entry_from(
    cache: Seq<(String, StatsEntry)>,
    name: Seq<char>,
    i: int,
) -> Option<StatsEntry>
    decreases cache.len() - i,
{
    if i >= cache.len() {
        None
    } else if cache[i].0@ == name {
        Some(cache[i].1)
    } else {
        cache_entry_from(cache, name, i + 1)
    }
}

/// A found column index is in range and bears the looked-up name.
proof fn lemma_col_index_props(cols: Seq<ColType>, name: Seq<char>, j: int)
    requires
        0 <= j,
    ensures
        col_index_from(cols, name, j) matches Some(i) ==> (j <= i < cols.len()
            && cols[i].name_spec() == name),
    decreases cols.len() - j,
{
    if j < cols.len() && cols[j].name_spec() != name {
        lemma_col_index_props(cols, name, j + 1);
    }
}

/// Prepending a cache entry shifts the scan by one.
proof fn lemma_cache_entry_shifted(
    old_cache: Seq<(String, StatsEntry)>,
    new_cache: Seq<(String, StatsEntry)>,
    name: Seq<char>,
    i: int,
)
    requires
        new_cache.len() == old_cache.len() + 1,
        forall|j: int| 0 <= j < old_cache.len() ==> new_cache[j + 1] == old_cache[j],
        0 <= i <= old_cache.len(),
    ensures
        cache_entry_from(new_cache, name, i + 1) == cache_entry_from(old_cache, name, i),
    decreases old_cache.len() - i,
{
    if i < old_cache.len() {
        assert(new_cache[i + 1] == old_cache[i]);
        lemma_cache_entry_shifted(old_cache, new_cache, name, i + 1);
    }
}

/// Whether a forced-datetime request names this column.
pub open spec fn forced_name_from(
    cfgs: Seq<(String, Option<String>)>,
    name: Seq<char>,
    i: int,
) -> bool
    decreases cfgs.len() - i,
{
    if i >= cfgs.len() {
        false
    } else if cfgs[i].0@ == name {
        true
    } else {
        forced_name_from(cfgs, name, i + 1)
    }
}

/// Whether the configuration forces the named column to datetimes.
pub open spec fn cfg_forces(config: &CsvConfig, name: Seq<char>) -> bool {
    match config.parser_as_date {
        Some(l) => forced_name_from(l@, name, 0),
        None => false,
    }
}


/// The float-parse attempt for a column, as mathematical data.
pub open spec fn float_attempt(fl: Option<Vec<u64>>) -> Option<Seq<u64>> {
    match fl {
        Some(v) => Some(v@),
        None => None,
    }
}

pub open spec fn float_attempt_usable(fl: Option<Seq<u64>>, n: nat) -> bool {
    match fl {
        Some(v) => v.len() == n,
        None => false,
    }
}

/// What inference must make of one column: a datetime column when forced,
/// else the first of integer, float, text whose parse accepted every cell.
pub open spec fn col_matches_inference(
    col: ColType,
    name: Seq<char>,
    cells: Seq<Seq<char>>,
    forced: bool,
    fl: Option<Seq<u64>>,
) -> bool {
    if forced {
        col matches ColType::Datetime(c) && c.is_fresh(name, cells_datetime_values(cells))
    } else if cells_all_int(cells) {
        col matches ColType::Integer(c) && c.is_fresh(name, cells_int_values(cells))
    } else if float_attempt_usable(fl, cells.len()) {
        col matches ColType::Float(c) && c.is_fresh(name, fl->0)
    } else {
        col matches ColType::String(c) && c.is_fresh_text(name, cells)
    }
}

/// The first column at or after `i` that is forced to datetimes and holds
/// a cell the datetime parser rejects — the only way construction fails.
pub open spec fn first_forced_failure(
    hdr: Seq<Seq<char>>,
    cv: Seq<Seq<Seq<char>>>,
    config: &CsvConfig,
    i: int,
) -> Option<int>
    decreases cv.len() - i,
{
    if i >= cv.len() {
        None
    } else if cfg_forces(config, hdr[i]) && !cells_all_datetime(cv[i]) {
        Some(i)
    } else {
        first_forced_failure(hdr, cv, config, i + 1)
    }
}

proof fn lemma_ff_prefix(hdr: Seq<Seq<char>>, cv: Seq<Seq<Seq<char>>>, config: &CsvConfig, i: int)
    requires
        0 <= i <= cv.len(),
        forall|j: int|
            0 <= j < i ==> !(cfg_forces(config, hdr[j]) && !cells_all_datetime(#[trigger] cv[j])),
    ensures
        first_forced_failure(hdr, cv, config, 0) == first_forced_failure(hdr, cv, config, i),
    decreases i,
{
    if i > 0 {
        lemma_ff_prefix(hdr, cv, config, i - 1);
    }
}

impl StatsEntry {
    /// The cached values as mathematical data.
    pub open spec fn model(&self) -> (
        Option<DataValueModel>,
        Option<DataValueModel>,
        Option<DataValueModel>,
    ) {
        (
            match self.mean {
                Some(v) => Some(v@),
                None => None,
            },
            match self.median {
                Some(v) => Some(v@),
                None => None,
            },
            match self.std_dev {
                Some(v) => Some(v@),
                None => None,
            },
        )
    }
}

/// The columns hold the same data: same kinds, names, values and counts;
/// only sorted snapshots may differ.
pub open spec fn csv_same_data(a: &Csv, b: &Csv) -> bool {
    &&& a.n_cols == b.n_cols
    &&& a.n_rows == b.n_rows
    &&& a.header == b.header
    &&& a.cols@.len() == b.cols@.len()
    &&& forall|i: int|
        0 <= i < a.cols@.len() ==> same_col_data(&a.cols@[i], &b.cols@[i])
}

impl Csv {
    /// The construction invariant: equally many columns and header names,
    /// at least one column, every column holding exactly `n_rows` values
    /// under its header name, every sorted snapshot believable.
    pub open spec fn wf(&self) -> bool {
        &&& self.n_cols == self.cols@.len()
        &&& self.n_cols == self.header@.len()
        &&& self.n_cols >= 1
        &&& forall|i: int| 0 <= i < self.cols@.len() ==> (#[trigger] self.cols@[i]).wf()
        &&& forall|i: int|
            0 <= i < self.cols@.len() ==> (#[trigger] self.cols@[i]).col_len() == self.n_rows
        &&& forall|i: int|
            0 <= i < self.cols@.len() ==> (#[trigger] self.cols@[i]).name_spec()
                == self.header@[i]@
    }

    /// The first column of this name, if any.
    pub open spec fn lookup_col(&self, name: Seq<char>) -> Option<int> {
        col_index_from(self.cols@, name, 0)
    }

    /// The cached mean of this column name, as mathematical data.
    pub open spec fn cached_mean(&self, name: Seq<char>) -> Option<DataValueModel> {
        match cache_entry_from(self.cache@, name, 0) {
            Some(e) => e.model().0,
            None => None,
        }
    }

    /// The cached median of this column name, as mathematical data.
    pub open spec fn cached_median(&self, name: Seq<char>) -> Option<DataValueModel> {
        match cache_entry_from(self.cache@, name, 0) {
            Some(e) => e.model().1,
            None => None,
        }
    }

    fn find_col_idx(&self, name: &str) -> (r: Option<usize>)
        ensures
            match r {
                Some(i) => self.lookup_col(name@) == Some(i as int) && i < self.cols@.len(),
                None => self.lookup_col(name@) is None,
            },
    {
        let n = self.cols.len();
        let mut i: usize = 0;
        while i < n
            invariant
                i <= n,
                n == self.cols@.len(),
                col_index_from(self.cols@, name@, 0) == col_index_from(self.cols@, name@, i as int),
        decreases n - i,
        {
            if str_eq(self.cols[i].name(), name) {
                return Some(i);
            }
            i = i + 1;
        }
        None
    }

    fn find_entry(&self, name: &str) -> (r: Option<&StatsEntry>)
        ensures
            match r {
                Some(e) => cache_entry_from(self.cache@, name@, 0) matches Some(ce) && e.model()
                    == ce.model(),
                None => cache_entry_from(self.cache@, name@, 0) is None,
            },
    {
        let n = self.cache.len();
        let mut i: usize = 0;
        while i < n
            invariant
                i <= n,
                n == self.cache@.len(),
                cache_entry_from(self.cache@, name@, 0) == cache_entry_from(
                    self.cache@,
                    name@,
                    i as int,
                ),
            decreases n - i,
        {
            if str_eq(self.cache[i].0.as_str(), name) {
                return Some(&self.cache[i].1);
            }
            i = i + 1;
        }
        None
    }

    /// Looks a column up by name, first match winning.
    pub fn get_col(&self, name: &str) -> (r: Result<&ColType, CsvError>)
        requires
            self.wf(),
        ensures
            self.lookup_col(name@) matches Some(i) ==> (r matches Ok(c) && *c == self.cols@[i]),
            self.lookup_col(name@) is None ==> (r matches Err(CsvError::MissingColumn {
                name: n,
            }) && n@ == name@),
    {
        match self.find_col_idx(name) {
            Some(i) => Ok(&self.cols[i]),
            None => Err(CsvError::MissingColumn { name: name.to_owned() }),
        }
    }

    /// Reads one cell as a uniform value, failing on an unknown column
    /// name or a row index at or past the row count.
    pub fn value_at(&self, name: &str, row_index: usize) -> (r: Result<DataValue, CsvError>)
        requires
            self.wf(),
        ensures
            self.lookup_col(name@) is None ==> (r matches Err(CsvError::MissingColumn {
                name: n,
            }) && n@ == name@),
            self.lookup_col(name@) matches Some(i) ==> (if row_index < self.n_rows {
                r matches Ok(v) && v@ == self.cols@[i].value_model_at(row_index as int)
            } else {
                r matches Err(CsvError::OutOfRange)
            }),
    {
        match self.find_col_idx(name) {
            Some(i) => self.cols[i].data_as_value(row_index),
            None => Err(CsvError::MissingColumn { name: name.to_owned() }),
        }
    }

    /// Records a mean in the cache under this column name, leaving every
    /// other cached value in place.
    pub fn store_mean(&mut self, name: &str, v: DataValue)
        ensures
            final(self).cols == old(self).cols,
            final(self).n_cols == old(self).n_cols,
            final(self).n_rows == old(self).n_rows,
            final(self).header == old(self).header,
            final(self).wf() == old(self).wf(),
            final(self).cached_mean(name@) == Some(v@),
            final(self).cached_median(name@) == old(self).cached_median(name@),
            forall|other: Seq<char>|
                other != name@ ==> #[trigger] final(self).cached_mean(other) == old(
                    self,
                ).cached_mean(other),
            forall|other: Seq<char>|
                other != name@ ==> #[trigger] final(self).cached_median(other) == old(
                    self,
                ).cached_median(other),
    {
        let (med, sd) = match self.find_entry(name) {
            Some(e) => {
                let m = match &e.median {
                    Some(x) => Some(x.clone()),
                    None => None,
                };
                let s = match &e.std_dev {
                    Some(x) => Some(x.clone()),
                    None => None,
                };
                (m, s)
            },
            None => (None, None),
        };
        let entry = StatsEntry { mean: Some(v), median: med, std_dev: sd };
        let ghost old_cache = self.cache@;
        self.cache.insert(0, (name.to_owned(), entry));
        proof {
            assert forall|j: int| 0 <= j < old_cache.len() implies self.cache@[j + 1]
                == old_cache[j] by {}
            assert forall|other: Seq<char>| true implies cache_entry_from(self.cache@, other, 1)
                == cache_entry_from(old_cache, other, 0) by {
                lemma_cache_entry_shifted(old_cache, self.cache@, other, 0);
            }
        }
    }

    /// Records a median in the cache under this column name, leaving every
    /// other cached value in place.
    pub fn store_median(&mut self, name: &str, v: DataValue)
        ensures
            final(self).cols == old(self).cols,
            final(self).n_cols == old(self).n_cols,
            final(self).n_rows == old(self).n_rows,
            final(self).header == old(self).header,
            final(self).wf() == old(self).wf(),
            final(self).cached_median(name@) == Some(v@),
            final(self).cached_mean(name@) == old(self).cached_mean(name@),
            forall|other: Seq<char>|
                other != name@ ==> #[trigger] final(self).cached_mean(other) == old(
                    self,
                ).cached_mean(other),
            forall|other: Seq<char>|
                other != name@ ==> #[trigger] final(self).cached_median(other) == old(
                    self,
                ).cached_median(other),
    {
        let (mn, sd) = match self.find_entry(name) {
            Some(e) => {
                let m = match &e.mean {
                    Some(x) => Some(x.clone()),
                    None => None,
                };
                let s = match &e.std_dev {
                    Some(x) => Some(x.clone()),
                    None => None,
                };
                (m, s)
            },
            None => (None, None),
        };
        let entry = StatsEntry { mean: mn, median: Some(v), std_dev: sd };
        let ghost old_cache = self.cache@;
        self.cache.insert(0, (name.to_owned(), entry));
        proof {
            assert forall|j: int| 0 <= j < old_cache.len() implies self.cache@[j + 1]
                == old_cache[j] by {}
            assert forall|other: Seq<char>| true implies cache_entry_from(self.cache@, other, 1)
                == cache_entry_from(old_cache, other, 0) by {
                lemma_cache_entry_shifted(old_cache, self.cache@, other, 0);
            }
        }
    }

    /// The mean of a named column, memoized: a cached value is returned as
    /// it was stored; otherwise the column decides, as its `mean_spec`
    /// says.  The finished value is recorded by the caller through
    /// `store_mean`, since finishing it is a rounding division.
    pub fn mean(&mut self, name: &str) -> (r: Result<StatPlan, CsvError>)
        requires
            old(self).wf(),
        ensures
            *final(self) == *old(self),
            old(self).cached_mean(name@) matches Some(m) ==> (r matches Ok(p) && p matches
                StatPlan::Value(v) && v@ == m),
            old(self).cached_mean(name@) is None ==> (old(self).lookup_col(name@) is None ==> (
            r matches Err(CsvError::MissingColumn { name: n }) && n@ == name@)),
            old(self).cached_mean(name@) is None ==> (old(self).lookup_col(name@) matches Some(i)
                ==> ((old(self).cols@[i] matches ColType::Float(c) ==> r == c.mean_spec()) && (old(
                self,
            ).cols@[i] matches ColType::Integer(c) ==> r == c.mean_spec()) && ((old(
                self,
            ).cols@[i] matches ColType::String(_) || old(self).cols@[i] matches ColType::Datetime(
                _,
            )) ==> (r matches Err(CsvError::InvalidMetricType { name: n }) && n@ == name@)))),
    {
        let cached: Option<DataValue> = match self.find_entry(name) {
            Some(e) => match &e.mean {
                Some(v) => Some(v.clone()),
                None => None,
            },
            None => None,
        };
        if let Some(v) = cached {
            return Ok(StatPlan::Value(v));
        }
        let idx = match self.find_col_idx(name) {
            Some(i) => i,
            None => {
                return Err(CsvError::MissingColumn { name: name.to_owned() });
            },
        };
        proof {
            lemma_col_index_props(self.cols@, name@, 0);
        }
        self.cols[idx].mean()
    }

    /// The median of a named column, memoized: a cached value is returned
    /// as it was stored; otherwise the column decides, as its
    /// `median_spec` says, and a finished value is recorded in the cache
    /// at once.  An unfinished step (the odd-count float combination) is
    /// recorded by the caller through `store_median`.
    pub fn median(&mut self, name: &str) -> (r: Result<StatPlan, CsvError>)
        requires
            old(self).wf(),
        ensures
            final(self).wf(),
            csv_same_data(old(self), final(self)),
            old(self).cached_median(name@) matches Some(m) ==> (r matches Ok(p) && p matches
                StatPlan::Value(v) && v@ == m && *final(self) == *old(self)),
            old(self).cached_median(name@) is None ==> (old(self).lookup_col(name@) is None ==> (
            r matches Err(CsvError::MissingColumn { name: n }) && n@ == name@ && *final(self)
                == *old(self))),
            old(self).cached_median(name@) is None ==> (old(self).lookup_col(name@) matches Some(
                i,
            ) ==> ((old(self).cols@[i] matches ColType::Float(c) ==> r == c.median_spec()) && (
            old(self).cols@[i] matches ColType::Integer(c) ==> r == c.median_spec()) && ((old(
                self,
            ).cols@[i] matches ColType::String(_) || old(self).cols@[i] matches ColType::Datetime(
                _,
            )) ==> (r matches Err(CsvError::InvalidMetricType { name: n }) && n@ == name@)))),
            old(self).cached_median(name@) is None ==> (match r {
                Ok(StatPlan::Value(v)) => final(self).cached_median(name@) == Some(v@),
                _ => final(self).cached_median(name@) == old(self).cached_median(name@),
            }),
            forall|other: Seq<char>| #[trigger]
                final(self).cached_mean(other) == old(self).cached_mean(other),
            forall|other: Seq<char>|
                other != name@ ==> #[trigger] final(self).cached_median(other) == old(
                    self,
                ).cached_median(other),
    {
        let cached: Option<DataValue> = match self.find_entry(name) {
            Some(e) => match &e.median {
                Some(v) => Some(v.clone()),
                None => None,
            },
            None => None,
        };
        if let Some(v) = cached {
            return Ok(StatPlan::Value(v));
        }
        let idx = match self.find_col_idx(name) {
            Some(i) => i,
            None => {
                return Err(CsvError::MissingColumn { name: name.to_owned() });
            },
        };
        proof {
            lemma_col_index_props(self.cols@, name@, 0);
        }
        let ghost old_cols = self.cols@;
        let mut col = self.cols.remove(idx);
        let res = col.median();
        self.cols.insert(idx, col);
        proof {
            assert(self.cols@ =~= old_cols.update(idx as int, self.cols@[idx as int]));
        }
        let store: Option<DataValue> = match &res {
            Ok(StatPlan::Value(v)) => Some(v.clone()),
            _ => None,
        };
        if let Some(v) = store {
            self.store_median(name, v);
        }
        res
    }

    /// The quantile of a named column at an arbitrary level — never
    /// cached, since it is parameterized by the level.  The level is the
    /// bit pattern of the requested fraction.
    pub fn quantile(&mut self, name: &str, quantile: u64) -> (r: Result<StatPlan, CsvError>)
        requires
            old(self).wf(),
        ensures
            final(self).wf(),
            csv_same_data(old(self), final(self)),
            final(self).cache == old(self).cache,
            old(self).lookup_col(name@) is None ==> (r matches Err(CsvError::MissingColumn {
                name: n,
            }) && n@ == name@),
            old(self).lookup_col(name@) matches Some(i) ==> ((old(
                self,
            ).cols@[i] matches ColType::Float(c) ==> r == c.quantile_spec(quantile)) && (old(
                self,
            ).cols@[i] matches ColType::Integer(c) ==> r == c.quantile_spec(quantile)) && ((old(
                self,
            ).cols@[i] matches ColType::String(_) || old(self).cols@[i] matches ColType::Datetime(
                _,
            )) ==> (r matches Err(CsvError::InvalidMetricType { name: n }) && n@ == name@))),
    {
        let idx = match self.find_col_idx(name) {
            Some(i) => i,
            None => {
                return Err(CsvError::MissingColumn { name: name.to_owned() });
            },
        };
        proof {
            lemma_col_index_props(self.cols@, name@, 0);
        }
        let ghost old_cols = self.cols@;
        let mut col = self.cols.remove(idx);
        let res = col.quantile(quantile);
        self.cols.insert(idx, col);
        proof {
            assert(self.cols@ =~= old_cols.update(idx as int, self.cols@[idx as int]));
        }
        res
    }

    /// Builds the per-column forced-datetime configuration for a name: the
    /// first matching request wins.
    fn date_config_for(config: &CsvConfig, name: &str) -> (r: Option<ColConfig>)
        ensures
            r is Some <==> cfg_forces(config, name@),
            r matches Some(c) ==> c.as_date,
    {
        match &config.parser_as_date {
            Some(list) => {
                let n = list.len();
                let mut i: usize = 0;
                while i < n
                    invariant
                        i <= n,
                        n == list@.len(),
                        config.parser_as_date matches Some(l) && l@ == list@,
                        forced_name_from(list@, name@, 0) == forced_name_from(
                            list@,
                            name@,
                            i as int,
                        ),
                    decreases n - i,
                {
                    let pair = &list[i];
                    if str_eq(pair.0.as_str(), name) {
                        proof {
                            assert(list@[i as int].0@ == name@);
                            assert(forced_name_from(list@, name@, i as int));
                            assert(cfg_forces(config, name@));
                        }
                        let fmt = match &pair.1 {
                            Some(f) => Some(f.clone()),
                            None => None,
                        };
                        return Some(ColConfig { date_format: fmt, as_date: true });
                    }
                    i = i + 1;
                }
                None
            },
            None => None,
        }
    }

    /// Builds the store from already-materialized per-column text cells:
    /// the header names, one cell vector per column (all the same length),
    /// the ingestion configuration, and the per-column float-parse
    /// attempts.  Each column's type is inferred; the whole construction
    /// fails exactly on the first forced-datetime column with an
    /// unparsable cell.
    pub fn from_cells(
        header: Vec<String>,
        columns: Vec<Vec<String>>,
        config: &CsvConfig,
        float_parse: Vec<Option<Vec<u64>>>,
    ) -> (r: Result<Csv, CsvError>)
        requires
            columns@.len() == header@.len(),
            header@.len() >= 1,
            forall|i: int|
                0 <= i < columns@.len() ==> (#[trigger] columns@[i])@.len() == columns@[0]@.len(),
            float_parse@.len() == columns@.len(),
        ensures
            r matches Ok(csv) ==> (first_forced_failure(
                header.deep_view(),
                columns.deep_view(),
                config,
                0,
            ) is None && csv.wf() && csv.header == header && csv.n_cols == header@.len()
                && csv.n_rows == columns@[0]@.len() && csv.cache@.len() == 0 && forall|i: int|
                0 <= i < columns@.len() ==> col_matches_inference(
                    #[trigger] csv.cols@[i],
                    header.deep_view()[i],
                    columns.deep_view()[i],
                    cfg_forces(config, header.deep_view()[i]),
                    float_attempt(float_parse@[i]),
                )),
            r matches Err(e) ==> (first_forced_failure(
                header.deep_view(),
                columns.deep_view(),
                config,
                0,
            ) matches Some(k) && (e matches CsvError::InvalidColumnType { name: n } && n@
                == header.deep_view()[k])),
    {
        let ghost hdr = header.deep_view();
        let ghost cv = columns.deep_view();
        let n_cols = header.len();
        let n_rows = columns[0].len();
        let mut cols: Vec<ColType> = Vec::new();
        let mut fp = float_parse;
        let ghost fp0 = fp@;
        let mut i: usize = 0;
        while i < n_cols
            invariant
                i <= n_cols,
                n_cols == header@.len(),
                n_cols == columns@.len(),
                n_cols >= 1,
                n_rows == columns@[0]@.len(),
                hdr == header.deep_view(),
                cv == columns.deep_view(),
                fp0.len() == n_cols,
                forall|j: int|
                    0 <= j < columns@.len() ==> (#[trigger] columns@[j])@.len()
                        == columns@[0]@.len(),
                fp@ =~= fp0.skip(i as int),
                cols@.len() == i,
                forall|j: int|
                    0 <= j < i ==> col_matches_inference(
                        #[trigger] cols@[j],
                        hdr[j],
                        cv[j],
                        cfg_forces(config, hdr[j]),
                        float_attempt(fp0[j]),
                    ),
                forall|j: int|
                    0 <= j < i ==> !(cfg_forces(config, hdr[j]) && !cells_all_datetime(
                        #[trigger] cv[j],
                    )),
            decreases n_cols - i,
        {
            let name = header[i].clone();
            proof {
                assert(name@ == hdr[i as int]);
                assert(cv[i as int] == columns@[i as int].deep_view());
                assert(fp0[i as int] == fp@[0]);
            }
            let cfg = Self::date_config_for(config, name.as_str());
            let fl = fp.remove(0);
            let col_res = ColType::from_values(&columns[i], name, cfg, fl);
            match col_res {
                Ok(col) => {
                    cols.push(col);
                },
                Err(e) => {
                    proof {
                        lemma_ff_prefix(hdr, cv, config, i as int);
                        assert(first_forced_failure(hdr, cv, config, i as int) == Some(i as int));
                    }
                    return Err(e);
                },
            }
            proof {
                assert(fp@ =~= fp0.skip(i + 1 as int));
            }
            i = i + 1;
        }
        proof {
            lemma_ff_prefix(hdr, cv, config, n_cols as int);
        }
        Ok(Csv { cols, n_cols, n_rows, header, cache: Vec::new() })
    }

    /// Reads the rows `beg..end` of every column as uniform values, one
    /// vector per column in column order, for the rendering layer; fails
    /// exactly when the range reaches past the rows or is reversed.
    pub fn display_range(&self, beg: usize, end: usize) -> (r: Result<
        Vec<Vec<DataValue>>,
        CsvError,
    >)
        requires
            self.wf(),
        ensures
            end > self.n_rows || beg > end ==> r matches Err(CsvError::InvalidRange),
            end <= self.n_rows && beg <= end ==> (r matches Ok(v) && v@.len() == self.n_cols),
            end <= self.n_rows && beg <= end ==> (r matches Ok(v) && (forall|c: int|
                0 <= c < v@.len() ==> (#[trigger] v@[c])@.len() == end - beg)),
            end <= self.n_rows && beg <= end ==> (r matches Ok(v) && (forall|c: int, k: int|
                0 <= c < v@.len() && 0 <= k < end - beg ==> (#[trigger] v@[c]@[k])@
                    == self.cols@[c].value_model_at(beg + k))),
    {
        if end > self.n_rows || beg > end {
            return Err(CsvError::InvalidRange);
        }
        let n = self.cols.len();
        let mut out: Vec<Vec<DataValue>> = Vec::new();
        let mut c: usize = 0;
        while c < n
            invariant
                c <= n,
                self.wf(),
                n == self.cols@.len(),
                end <= self.n_rows,
                beg <= end,
                out@.len() == c,
                forall|j: int| 0 <= j < c ==> (#[trigger] out@[j])@.len() == end - beg,
                forall|j: int, k: int|
                    0 <= j < c && 0 <= k < end - beg ==> (#[trigger] out@[j]@[k])@
                        == self.cols@[j].value_model_at(beg + k),
            decreases n - c,
        {
            let row = match self.cols[c].display_range(beg, end) {
                Ok(v) => v,
                Err(_) => {
                    // dead arm: every column holds exactly the checked
                    // number of rows
                    proof {
                        assert(false);
                    }
                    Vec::new()
                },
            };
            out.push(row);
            c = c + 1;
        }
        Ok(out)
    }

    /// The first `n_lines` rows of every column, for printing a head of
    /// the table; fails exactly when more lines are asked for than the
    /// store holds.
    pub fn head_rows(&self, n_lines: usize) -> (r: Result<Vec<Vec<DataValue>>, CsvError>)
        requires
            self.wf(),
        ensures
            self.n_rows < n_lines ==> (r matches Err(CsvError::OutOfLines { n, len }) && n
                == n_lines && len == self.n_rows),
            self.n_rows >= n_lines ==> (r matches Ok(v) && v@.len() == self.n_cols),
            self.n_rows >= n_lines ==> (r matches Ok(v) && (forall|c: int|
                0 <= c < v@.len() ==> (#[trigger] v@[c])@.len() == n_lines)),
            self.n_rows >= n_lines ==> (r matches Ok(v) && (forall|c: int, k: int|
                0 <= c < v@.len() && 0 <= k < n_lines ==> (#[trigger] v@[c]@[k])@
                    == self.cols@[c].value_model_at(k))),
    {
        if self.n_rows < n_lines {
            return Err(CsvError::OutOfLines { n: n_lines, len: self.n_rows });
        }
        self.display_range(0, n_lines)
    }
}

} // verus!
