use crate::col::{ColType, CsvCol};
use crate::errors::CsvError;
use crate::fbits::{
    check_quantile_bits, float_lerp_frac_num, float_lerp_lo, float_lerp_pos, int_quantile_index,
    is_valid_quantile_bits, q_shift, quantile_index_int,
};
use crate::selection::select_rank;
use crate::sortvec::{sorted_f64s, sorted_i64s};
use crate::values::DataValue;
use vstd::prelude::*;

verus! {

/// What a statistic evaluates to.  Everything this crate can finish exactly
/// comes back as `Value`.  The remaining steps are the operations that
/// round floating-point results; they come back as explicit instructions,
/// carrying the exact operands, for the unverified rim to execute:
/// `AverageTwo` is half the sum of the two patterns, `Interpolate` is
/// `lo * (1 - f) + hi * f` for the fraction `f = frac_num / 2^frac_log2`,
/// and `MeanFloats` / `MeanInts` ask for the column's running sum divided
/// by its count.
#[derive(Debug)]
pub enum StatPlan {
    Value(DataValue),
    AverageTwo { a: u64, b: u64 },
    Interpolate { lo: u64, hi: u64, frac_num: u128, frac_log2: u32 },
    MeanFloats,
    MeanInts,
}

/// Truncating halving: the quotient of division by two rounded toward
/// zero, as machine division computes it.
pub open spec fn half_toward_zero(x: int) -> int {
    if x >= 0 {
        x / 2
    } else {
        -((-x) / 2)
    }
}

fn half_i64(x: i64) -> (r: i64)
    ensures
        r == half_toward_zero(x as int),
{
    if x >= 0 {
        ((x as u64) / 2) as i64
    } else if x == i64::MIN {
        -0x4000_0000_0000_0000
    } else {
        let m: u64 = (-x) as u64;
        -((m / 2) as i64)
    }
}

/// The capability set of the statistics engine: mean, median, an arbitrary
/// quantile, and standard deviation.  Each implementation fixes, as spec
/// functions, the exact outcome of every operation; the executable methods
/// are bound to those outcomes.  `median` and `quantile` take the receiver
/// mutably because they fill the column's sorted snapshot; `same_content`
/// says the data itself is never touched.
pub trait Statistics {
    spec fn stat_wf(&self) -> bool;

    spec fn same_content(&self, other: &Self) -> bool;

    spec fn mean_spec(&self) -> Result<StatPlan, CsvError>;

    spec fn median_spec(&self) -> Result<StatPlan, CsvError>;

    spec fn quantile_spec(&self, q: u64) -> Result<StatPlan, CsvError>;

    spec fn stddev_spec(&self) -> Result<StatPlan, CsvError>;

    fn mean(&self) -> (r: Result<StatPlan, CsvError>)
        requires
            self.stat_wf(),
        ensures
            r == self.mean_spec(),
    ;

    fn median(&mut self) -> (r: Result<StatPlan, CsvError>)
        requires
            old(self).stat_wf(),
        ensures
            final(self).stat_wf(),
            final(self).same_content(old(self)),
            r == old(self).median_spec(),
    ;

    fn quantile(&mut self, q: u64) -> (r: Result<StatPlan, CsvError>)
        requires
            old(self).stat_wf(),
        ensures
            final(self).stat_wf(),
            final(self).same_content(old(self)),
            r == old(self).quantile_spec(q),
    ;

    fn stddev(&self) -> (r: Result<StatPlan, CsvError>)
        requires
            self.stat_wf(),
        ensures
            r == self.stddev_spec(),
    ;
}

impl Statistics for CsvCol<i64> {
    open spec fn stat_wf(&self) -> bool {
        self.wf() && self.cache_ok()
    }

    open spec fn same_content(&self, other: &Self) -> bool {
        &&& self.col_name == other.col_name
        &&& self.values == other.values
        &&& self.n_elements == other.n_elements
    }

    /// The mean always leaves the integer domain, so it is a division for
    /// the rim: sum over count.
    open spec fn mean_spec(&self) -> Result<StatPlan, CsvError> {
        if self.values@.len() == 0 {
            Err(CsvError::EmptyColumn)
        } else {
            Ok(StatPlan::MeanInts)
        }
    }

    /// The median of an odd-count column is the middle of the sorted
    /// values.  For an even count the two middle values combine
    /// asymmetrically — the upper is halved toward zero and added to the
    /// lower, unhalved — and an out-of-range combination is an explicit
    /// failure.
    open spec fn median_spec(&self) -> Result<StatPlan, CsvError> {
        let n = self.values@.len();
        let s = sorted_i64s(self.values@);
        if n == 0 {
            Err(CsvError::EmptyColumn)
        } else if n % 2 == 1 {
            Ok(StatPlan::Value(DataValue::Integer(s[(n / 2) as int])))
        } else {
            let c = half_toward_zero(s[(n / 2) as int] as int) + s[(n / 2 - 1) as int];
            if i64::MIN <= c <= i64::MAX {
                Ok(StatPlan::Value(DataValue::Integer(c as i64)))
            } else {
                Err(CsvError::ValueOverflow)
            }
        }
    }

    /// Nearest rank, never interpolating: the sorted value at the exact
    /// index ceil(q * n) - 1 (clamped into range), for 0 <= q < 1.
    open spec fn quantile_spec(&self, q: u64) -> Result<StatPlan, CsvError> {
        let n = self.values@.len();
        let s = sorted_i64s(self.values@);
        if !is_valid_quantile_bits(q) {
            Err(CsvError::InvalidQuantile { value: q })
        } else if n == 0 {
            Err(CsvError::EmptyColumn)
        } else {
            Ok(StatPlan::Value(DataValue::Integer(s[int_quantile_index(q, n as int)])))
        }
    }

    /// No computation is defined for the standard deviation; the failure
    /// is explicit and dedicated.
    open spec fn stddev_spec(&self) -> Result<StatPlan, CsvError> {
        if self.values@.len() == 0 {
            Err(CsvError::EmptyColumn)
        } else {
            Err(CsvError::Unimplemented)
        }
    }

    fn mean(&self) -> (r: Result<StatPlan, CsvError>) {
        if self.n_elements == 0 {
            return Err(CsvError::EmptyColumn);
        }
        Ok(StatPlan::MeanInts)
    }

    fn median(&mut self) -> (r: Result<StatPlan, CsvError>) {
        if self.n_elements == 0 {
            return Err(CsvError::EmptyColumn);
        }
        // the median never touches the sorted snapshot: it selects its
        // middle values directly, by partition-based selection
        let n = self.n_elements;
        if n % 2 == 1 {
            return Ok(StatPlan::Value(DataValue::Integer(select_rank(&self.values, n / 2))));
        }
        let upper = select_rank(&self.values, n / 2);
        let lower = select_rank(&self.values, n / 2 - 1);
        let h = half_i64(upper);
        match h.checked_add(lower) {
            Some(c) => Ok(StatPlan::Value(DataValue::Integer(c))),
            None => Err(CsvError::ValueOverflow),
        }
    }

    fn quantile(&mut self, q: u64) -> (r: Result<StatPlan, CsvError>) {
        if !check_quantile_bits(q) {
            return Err(CsvError::InvalidQuantile { value: q });
        }
        if self.n_elements == 0 {
            return Err(CsvError::EmptyColumn);
        }
        let col = self.get_sorted();
        let idx = quantile_index_int(q, self.n_elements);
        Ok(StatPlan::Value(DataValue::Integer(col[idx])))
    }

    fn stddev(&self) -> (r: Result<StatPlan, CsvError>) {
        if self.n_elements == 0 {
            return Err(CsvError::EmptyColumn);
        }
        Err(CsvError::Unimplemented)
    }
}

impl Statistics for CsvCol<u64> {
    open spec fn stat_wf(&self) -> bool {
        self.wf() && self.cache_ok()
    }

    open spec fn same_content(&self, other: &Self) -> bool {
        &&& self.col_name == other.col_name
        &&& self.values == other.values
        &&& self.n_elements == other.n_elements
    }

    /// The mean is a running sum and one division for the rim.
    open spec fn mean_spec(&self) -> Result<StatPlan, CsvError> {
        if self.values@.len() == 0 {
            Err(CsvError::EmptyColumn)
        } else {
            Ok(StatPlan::MeanFloats)
        }
    }

    /// For an even count the median is the single value at the middle
    /// index of the sorted snapshot, exactly; for an odd count of at least
    /// three it is half the sum of the two values straddling the middle,
    /// handed out for rounding.  A single value is its own median.
    open spec fn median_spec(&self) -> Result<StatPlan, CsvError> {
        let n = self.values@.len();
        let s = sorted_f64s(self.values@);
        if n == 0 {
            Err(CsvError::EmptyColumn)
        } else if n % 2 == 0 {
            Ok(StatPlan::Value(DataValue::Float(s[(n / 2) as int])))
        } else if n == 1 {
            Ok(StatPlan::Value(DataValue::Float(s[0])))
        } else {
            Ok(StatPlan::AverageTwo { a: s[(n / 2) as int], b: s[(n / 2 - 1) as int] })
        }
    }

    /// Continuous interpolation at the exact position q * (n - 1): a
    /// single column value where the position falls on the last index
    /// (only a one-row column, since q < 1), otherwise the two neighbours
    /// with the exact fractional weight.
    open spec fn quantile_spec(&self, q: u64) -> Result<StatPlan, CsvError> {
        let n = self.values@.len();
        let s = sorted_f64s(self.values@);
        if !is_valid_quantile_bits(q) {
            Err(CsvError::InvalidQuantile { value: q })
        } else if n == 0 {
            Err(CsvError::EmptyColumn)
        } else if n == 1 {
            Ok(StatPlan::Value(DataValue::Float(s[0])))
        } else {
            let lo = float_lerp_lo(q, n as int);
            Ok(
                StatPlan::Interpolate {
                    lo: s[lo],
                    hi: s[lo + 1],
                    frac_num: float_lerp_frac_num(q, n as int) as u128,
                    frac_log2: q_shift(q) as u32,
                },
            )
        }
    }

    /// No computation is defined for the standard deviation; the failure
    /// is explicit and dedicated.
    open spec fn stddev_spec(&self) -> Result<StatPlan, CsvError> {
        if self.values@.len() == 0 {
            Err(CsvError::EmptyColumn)
        } else {
            Err(CsvError::Unimplemented)
        }
    }

    fn mean(&self) -> (r: Result<StatPlan, CsvError>) {
        if self.n_elements == 0 {
            return Err(CsvError::EmptyColumn);
        }
        Ok(StatPlan::MeanFloats)
    }

    fn median(&mut self) -> (r: Result<StatPlan, CsvError>) {
        if self.n_elements == 0 {
            return Err(CsvError::EmptyColumn);
        }
        let col = self.get_sorted();
        let n = self.n_elements;
        if n % 2 == 0 {
            return Ok(StatPlan::Value(DataValue::Float(col[n / 2])));
        }
        if n == 1 {
            return Ok(StatPlan::Value(DataValue::Float(col[0])));
        }
        Ok(StatPlan::AverageTwo { a: col[n / 2], b: col[n / 2 - 1] })
    }

    fn quantile(&mut self, q: u64) -> (r: Result<StatPlan, CsvError>) {
        if !check_quantile_bits(q) {
            return Err(CsvError::InvalidQuantile { value: q });
        }
        if self.n_elements == 0 {
            return Err(CsvError::EmptyColumn);
        }
        let col = self.get_sorted();
        let n = self.n_elements;
        if n == 1 {
            return Ok(StatPlan::Value(DataValue::Float(col[0])));
        }
        let (lo, frac_num, frac_log2) = float_lerp_pos(q, n);
        Ok(StatPlan::Interpolate { lo: col[lo], hi: col[lo + 1], frac_num, frac_log2 })
    }

    fn stddev(&self) -> (r: Result<StatPlan, CsvError>) {
        if self.n_elements == 0 {
            return Err(CsvError::EmptyColumn);
        }
        Err(CsvError::Unimplemented)
    }
}

/// The data a column holds, untouched by statistics: same variant, name,
/// values and count; only the sorted snapshot may differ.
pub open spec fn same_col_data(a: &ColType, b: &ColType) -> bool {
    match (a, b) {
        (ColType::Float(x), ColType::Float(y)) => x.same_content(y),
        (ColType::Integer(x), ColType::Integer(y)) => x.same_content(y),
        (ColType::String(x), ColType::String(y)) => x == y,
        (ColType::Datetime(x), ColType::Datetime(y)) => x == y,
        _ => false,
    }
}

impl ColType {
    /// The mean of a numeric column, or the metric-type failure.
    pub fn mean(&self) -> (r: Result<StatPlan, CsvError>)
        requires
            self.wf(),
        ensures
            self matches ColType::Float(c) ==> r == c.mean_spec(),
            self matches ColType::Integer(c) ==> r == c.mean_spec(),
            (self matches ColType::String(_) || self matches ColType::Datetime(_)) ==> (r matches Err(
                CsvError::InvalidMetricType { name: n },
            ) && n@ == self.name_spec()),
    {
        match self {
            ColType::Float(c) => c.mean(),
            ColType::Integer(c) => c.mean(),
            _ => Err(CsvError::InvalidMetricType { name: self.name().to_owned() }),
        }
    }

    /// The median of a numeric column, or the metric-type failure.
    pub fn median(&mut self) -> (r: Result<StatPlan, CsvError>)
        requires
            old(self).wf(),
        ensures
            final(self).wf(),
            same_col_data(old(self), final(self)),
            (*old(self)) matches ColType::Float(c) ==> r == c.median_spec(),
            (*old(self)) matches ColType::Integer(c) ==> r == c.median_spec(),
            ((*old(self)) matches ColType::String(_) || (*old(self)) matches ColType::Datetime(_)) ==> (
            r matches Err(CsvError::InvalidMetricType { name: n }) && n@ == old(self).name_spec()
                && *final(self) == *old(self)),
    {
        match self {
            ColType::Float(c) => c.median(),
            ColType::Integer(c) => c.median(),
            _ => Err(CsvError::InvalidMetricType { name: self.name().to_owned() }),
        }
    }

    /// The quantile of a numeric column, or the metric-type failure.
    pub fn quantile(&mut self, q: u64) -> (r: Result<StatPlan, CsvError>)
        requires
            old(self).wf(),
        ensures
            final(self).wf(),
            same_col_data(old(self), final(self)),
            (*old(self)) matches ColType::Float(c) ==> r == c.quantile_spec(q),
            (*old(self)) matches ColType::Integer(c) ==> r == c.quantile_spec(q),
            ((*old(self)) matches ColType::String(_) || (*old(self)) matches ColType::Datetime(_)) ==> (
            r matches Err(CsvError::InvalidMetricType { name: n }) && n@ == old(self).name_spec()
                && *final(self) == *old(self)),
    {
        match self {
            ColType::Float(c) => c.quantile(q),
            ColType::Integer(c) => c.quantile(q),
            _ => Err(CsvError::InvalidMetricType { name: self.name().to_owned() }),
        }
    }

    /// The standard deviation of a numeric column — an explicit,
    /// dedicated failure — or the metric-type failure.
    pub fn stddev(&self) -> (r: Result<StatPlan, CsvError>)
        requires
            self.wf(),
        ensures
            self matches ColType::Float(c) ==> r == c.stddev_spec(),
            self matches ColType::Integer(c) ==> r == c.stddev_spec(),
            (self matches ColType::String(_) || self matches ColType::Datetime(_)) ==> (r matches Err(
                CsvError::InvalidMetricType { name: n },
            ) && n@ == self.name_spec()),
    {
        match self {
            ColType::Float(c) => c.stddev(),
            ColType::Integer(c) => c.stddev(),
            _ => Err(CsvError::InvalidMetricType { name: self.name().to_owned() }),
        }
    }

    /// As `median`, for a caller that holds the column immutably: the same
    /// outcome, computed on a copy, leaving the sorted snapshot alone.
    pub fn median_fresh(&self) -> (r: Result<StatPlan, CsvError>)
        requires
            self.wf(),
        ensures
            self matches ColType::Float(c) ==> r == c.median_spec(),
            self matches ColType::Integer(c) ==> r == c.median_spec(),
            (self matches ColType::String(_) || self matches ColType::Datetime(_)) ==> (r matches
                Err(CsvError::InvalidMetricType { name: n }) && n@ == self.name_spec()),
    {
        match self {
            ColType::Float(c) => {
                let mut copy = CsvCol::<u64> {
                    col_name: c.col_name.clone(),
                    values: c.values.clone(),
                    n_elements: c.n_elements,
                    sorted_values: None,
                };
                copy.median()
            },
            ColType::Integer(c) => {
                let mut copy = CsvCol::<i64> {
                    col_name: c.col_name.clone(),
                    values: c.values.clone(),
                    n_elements: c.n_elements,
                    sorted_values: None,
                };
                copy.median()
            },
            _ => Err(CsvError::InvalidMetricType { name: self.name().to_owned() }),
        }
    }

    /// As `quantile`, for a caller that holds the column immutably: the
    /// same outcome, computed on a copy, leaving the sorted snapshot
    /// alone.
    pub fn quantile_fresh(&self, q: u64) -> (r: Result<StatPlan, CsvError>)
        requires
            self.wf(),
        ensures
            self matches ColType::Float(c) ==> r == c.quantile_spec(q),
            self matches ColType::Integer(c) ==> r == c.quantile_spec(q),
            (self matches ColType::String(_) || self matches ColType::Datetime(_)) ==> (r matches
                Err(CsvError::InvalidMetricType { name: n }) && n@ == self.name_spec()),
    {
        match self {
            ColType::Float(c) => {
                let mut copy = CsvCol::<u64> {
                    col_name: c.col_name.clone(),
                    values: c.values.clone(),
                    n_elements: c.n_elements,
                    sorted_values: None,
                };
                copy.quantile(q)
            },
            ColType::Integer(c) => {
                let mut copy = CsvCol::<i64> {
                    col_name: c.col_name.clone(),
                    values: c.values.clone(),
                    n_elements: c.n_elements,
                    sorted_values: None,
                };
                copy.quantile(q)
            },
            _ => Err(CsvError::InvalidMetricType { name: self.name().to_owned() }),
        }
    }
}

} // verus!
