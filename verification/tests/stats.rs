use csv_stats::{ColType, Csv, CsvConfig, CsvError, DataValue, StatPlan, Statistics};

fn cells(texts: &[&str]) -> Vec<String> {
    texts.iter().map(|s| s.to_string()).collect()
}

fn float_attempt(texts: &[&str]) -> Option<Vec<u64>> {
    texts
        .iter()
        .map(|s| s.parse::<f64>().ok().map(f64::to_bits))
        .collect()
}

fn build_csv(names: &[&str], cols: &[&[&str]], date_cols: &[&str]) -> Csv {
    let header: Vec<String> = names.iter().map(|s| s.to_string()).collect();
    let columns: Vec<Vec<String>> = cols.iter().map(|c| cells(c)).collect();
    let fp: Vec<Option<Vec<u64>>> = cols.iter().map(|c| float_attempt(c)).collect();
    let config = CsvConfig {
        separator: ',',
        header: None,
        parser_as_date: if date_cols.is_empty() {
            None
        } else {
            Some(date_cols.iter().map(|n| (n.to_string(), None)).collect())
        },
    };
    Csv::from_cells(header, columns, &config, fp).unwrap()
}

/// Executes the rounding steps a statistic hands out, the way the
/// program's rim does.
fn finish(plan: StatPlan, csv: &Csv, name: &str) -> DataValue {
    match plan {
        StatPlan::Value(v) => v,
        StatPlan::AverageTwo { a, b } => {
            DataValue::Float((0.5 * (f64::from_bits(a) + f64::from_bits(b))).to_bits())
        }
        StatPlan::Interpolate { lo, hi, frac_num, frac_log2 } => {
            let frac = if frac_log2 >= 1024 {
                0.0
            } else {
                frac_num as f64 / f64::from_bits((1023 + frac_log2 as u64) << 52)
            };
            let l = f64::from_bits(lo);
            let h = f64::from_bits(hi);
            DataValue::Float((l * (1.0 - frac) + h * frac).to_bits())
        }
        StatPlan::MeanInts => match csv.get_col(name).unwrap() {
            ColType::Integer(c) => {
                let sum: f64 = c.values.iter().map(|&x| x as f64).sum();
                DataValue::Float((sum / c.n_elements as f64).to_bits())
            }
            _ => panic!("an integer mean plan for a non-integer column"),
        },
        StatPlan::MeanFloats => match csv.get_col(name).unwrap() {
            ColType::Float(c) => {
                let sum: f64 = c.values.iter().map(|&b| f64::from_bits(b)).sum();
                DataValue::Float((sum / c.n_elements as f64).to_bits())
            }
            _ => panic!("a float mean plan for a non-float column"),
        },
    }
}

fn as_float(v: &DataValue) -> f64 {
    match v {
        DataValue::Float(b) => f64::from_bits(*b),
        _ => panic!("expected a float value"),
    }
}

#[test]
fn quantile_rejects_out_of_range_levels() {
    let mut csv = build_csv(
        &["i", "f"],
        &[&["10", "20", "30", "40"], &["10.0", "20.0", "30.0", "40.0"]],
        &[],
    );
    for bad in [-0.1f64, 1.0, 1.5, f64::NAN, f64::INFINITY, -1.0] {
        let q = bad.to_bits();
        assert!(matches!(
            csv.quantile("i", q),
            Err(CsvError::InvalidQuantile { value }) if value == q
        ));
        assert!(matches!(
            csv.quantile("f", q),
            Err(CsvError::InvalidQuantile { value }) if value == q
        ));
    }
    // the bounds themselves: 0.0 and -0.0 are accepted, 1.0 is not
    assert!(csv.quantile("i", 0.0f64.to_bits()).is_ok());
    assert!(csv.quantile("i", (-0.0f64).to_bits()).is_ok());
    assert!(csv.quantile("f", 0.0f64.to_bits()).is_ok());
}

#[test]
fn float_quantile_interpolates() {
    let mut csv = build_csv(&["f"], &[&["10.0", "20.0", "30.0", "40.0"]], &[]);
    let plan = csv.quantile("f", 0.5f64.to_bits()).unwrap();
    match &plan {
        StatPlan::Interpolate { lo, hi, .. } => {
            assert_eq!(f64::from_bits(*lo), 20.0);
            assert_eq!(f64::from_bits(*hi), 30.0);
        }
        _ => panic!("expected an interpolation step"),
    }
    let v = finish(plan, &csv, "f");
    assert_eq!(as_float(&v), 25.0);
}

#[test]
fn integer_quantile_takes_nearest_rank() {
    let mut csv = build_csv(
        &["i", "f"],
        &[&["10", "20", "30", "40"], &["10.0", "20.0", "30.0", "40.0"]],
        &[],
    );
    let plan = csv.quantile("i", 0.5f64.to_bits()).unwrap();
    let v = match plan {
        StatPlan::Value(v) => v,
        _ => panic!("an integer quantile resolves completely"),
    };
    assert!(matches!(v, DataValue::Integer(20)));
    // the same data as floats interpolates instead: the two policies differ
    let fplan = csv.quantile("f", 0.5f64.to_bits()).unwrap();
    let fv = finish(fplan, &csv, "f");
    assert_eq!(as_float(&fv), 25.0);
}

#[test]
fn integer_quantile_level_zero_takes_first() {
    let mut csv = build_csv(&["i"], &[&["30", "10", "20"]], &[]);
    let plan = csv.quantile("i", 0.0f64.to_bits()).unwrap();
    match plan {
        StatPlan::Value(DataValue::Integer(v)) => assert_eq!(v, 10),
        _ => panic!("expected a resolved integer"),
    }
}

#[test]
fn mean_of_integers_is_a_float() {
    let mut csv = build_csv(&["i"], &[&["1", "2", "3", "4"]], &[]);
    let plan = csv.mean("i").unwrap();
    assert!(matches!(plan, StatPlan::MeanInts));
    let v = finish(plan, &csv, "i");
    assert_eq!(as_float(&v), 2.5);
}

#[test]
fn mean_of_floats() {
    let mut csv = build_csv(&["f"], &[&["1.5", "2.5"]], &[]);
    let plan = csv.mean("f").unwrap();
    assert!(matches!(plan, StatPlan::MeanFloats));
    let v = finish(plan, &csv, "f");
    assert_eq!(as_float(&v), 2.0);
}

#[test]
fn sorted_snapshot_is_idempotent() {
    let csv = build_csv(&["i", "f"], &[&["3", "1", "2"], &["3.5", "1.5", "2.5"]], &[]);
    let mut cols = csv.cols;
    match &mut cols[0] {
        ColType::Integer(c) => {
            let first = c.get_sorted();
            let second = c.get_sorted();
            assert_eq!(first, second);
            // and it equals sorting the original values independently
            let mut manual = vec![3i64, 1, 2];
            manual.sort();
            assert_eq!(first, manual);
        }
        _ => panic!("expected an integer column"),
    }
    match &mut cols[1] {
        ColType::Float(c) => {
            let first = c.get_sorted();
            let second = c.get_sorted();
            assert_eq!(first, second);
            let mut manual: Vec<f64> = vec![3.5, 1.5, 2.5];
            manual.sort_by(|a, b| a.partial_cmp(b).unwrap());
            let manual_bits: Vec<u64> = manual.iter().map(|f| f.to_bits()).collect();
            assert_eq!(first, manual_bits);
        }
        _ => panic!("expected a float column"),
    }
}

#[test]
fn mean_is_cached_and_stable() {
    let mut csv = build_csv(&["i"], &[&["1", "2", "3", "4"]], &[]);
    let plan = csv.mean("i").unwrap();
    let v1 = finish(plan, &csv, "i");
    csv.store_mean("i", v1.clone());
    // the second call must come straight from the cache, already finished
    let second = csv.mean("i").unwrap();
    let v2 = match second {
        StatPlan::Value(v) => v,
        _ => panic!("a cached mean comes back as a value"),
    };
    assert_eq!(as_float(&v1), as_float(&v2));
}

#[test]
fn median_of_integers_is_cached() {
    let mut csv = build_csv(&["i"], &[&["5", "1", "3"]], &[]);
    let first = match csv.median("i").unwrap() {
        StatPlan::Value(DataValue::Integer(v)) => v,
        _ => panic!("expected a resolved integer median"),
    };
    assert_eq!(first, 3);
    // cache entry exists now; the second call returns the same value
    let second = match csv.median("i").unwrap() {
        StatPlan::Value(DataValue::Integer(v)) => v,
        _ => panic!("expected the cached median"),
    };
    assert_eq!(first, second);
    assert_eq!(csv.cache.len(), 1);
}

#[test]
fn integer_median_combines_asymmetrically() {
    // even count: the upper middle value halved (toward zero), plus the
    // lower middle value unhalved
    let mut csv = build_csv(&["i"], &[&["1", "2", "3", "4"]], &[]);
    match csv.median("i").unwrap() {
        StatPlan::Value(DataValue::Integer(v)) => assert_eq!(v, 3 / 2 + 2),
        _ => panic!("expected a resolved integer median"),
    }
}

#[test]
fn integer_median_overflow_is_explicit() {
    let big = i64::MAX.to_string();
    let mut csv = build_csv(&["i"], &[&[big.as_str(), big.as_str()]], &[]);
    assert!(matches!(csv.median("i"), Err(CsvError::ValueOverflow)));
}

#[test]
fn float_median_parity_branches() {
    // even count: the single value at the middle index of the sorted data
    let mut csv = build_csv(&["f"], &[&["1.0", "2.0", "3.0", "4.0"]], &[]);
    match csv.median("f").unwrap() {
        StatPlan::Value(DataValue::Float(b)) => assert_eq!(f64::from_bits(b), 3.0),
        _ => panic!("an even-count float median resolves completely"),
    }
    // odd count of at least three: half the sum of the two values
    // straddling the middle
    let mut csv = build_csv(&["f"], &[&["1.0", "2.0", "3.0"]], &[]);
    let plan = csv.median("f").unwrap();
    match &plan {
        StatPlan::AverageTwo { a, b } => {
            assert_eq!(f64::from_bits(*a), 2.0);
            assert_eq!(f64::from_bits(*b), 1.0);
        }
        _ => panic!("expected an averaging step"),
    }
    let v = finish(plan, &csv, "f");
    assert_eq!(as_float(&v), 1.5);
    // a single value is its own median
    let mut csv = build_csv(&["f"], &[&["7.5"]], &[]);
    match csv.median("f").unwrap() {
        StatPlan::Value(DataValue::Float(b)) => assert_eq!(f64::from_bits(b), 7.5),
        _ => panic!("a single value is its own median"),
    }
}

#[test]
fn float_median_finishes_and_caches_through_store() {
    let mut csv = build_csv(&["f"], &[&["1.0", "2.0", "3.0"]], &[]);
    let plan = csv.median("f").unwrap();
    let v = finish(plan, &csv, "f");
    csv.store_median("f", v.clone());
    match csv.median("f").unwrap() {
        StatPlan::Value(DataValue::Float(b)) => assert_eq!(f64::from_bits(b), as_float(&v)),
        _ => panic!("expected the cached median"),
    }
}

#[test]
fn out_of_range_access_fails_for_every_kind() {
    let csv = build_csv(
        &["i", "f", "s", "d"],
        &[&["1"], &["1.5"], &["x"], &["2023-01-15T10:30:00"]],
        &["d"],
    );
    for name in ["i", "f", "s", "d"] {
        assert!(matches!(csv.value_at(name, 1), Err(CsvError::OutOfRange)));
        assert!(csv.value_at(name, 0).is_ok());
    }
}

#[test]
fn non_numeric_columns_reject_metrics() {
    let mut csv = build_csv(
        &["s", "d"],
        &[&["x", "y"], &["2023-01-15T10:30:00", "2024-01-15T10:30:00"]],
        &["d"],
    );
    let q = 0.5f64.to_bits();
    for name in ["s", "d"] {
        assert!(matches!(
            csv.mean(name),
            Err(CsvError::InvalidMetricType { name: ref n }) if n == name
        ));
        assert!(matches!(
            csv.median(name),
            Err(CsvError::InvalidMetricType { name: ref n }) if n == name
        ));
        assert!(matches!(
            csv.quantile(name, q),
            Err(CsvError::InvalidMetricType { name: ref n }) if n == name
        ));
    }
}

#[test]
fn empty_columns_reject_statistics() {
    let mut csv = build_csv(&["i", "f"], &[&[], &[]], &[]);
    assert_eq!(csv.n_rows, 0);
    assert!(matches!(csv.mean("i"), Err(CsvError::EmptyColumn)));
    assert!(matches!(csv.median("i"), Err(CsvError::EmptyColumn)));
    assert!(matches!(
        csv.quantile("i", 0.5f64.to_bits()),
        Err(CsvError::EmptyColumn)
    ));
}

#[test]
fn stddev_is_an_explicit_unimplemented_failure() {
    let csv = build_csv(&["i", "s"], &[&["1", "2"], &["x", "y"]], &[]);
    match csv.get_col("i").unwrap() {
        ColType::Integer(c) => {
            assert!(matches!(c.stddev(), Err(CsvError::Unimplemented)));
        }
        _ => panic!("expected an integer column"),
    }
    let col = csv.get_col("s").unwrap();
    assert!(matches!(col.stddev(), Err(CsvError::InvalidMetricType { .. })));
}

#[test]
fn statistics_on_missing_columns_fail() {
    let mut csv = build_csv(&["i"], &[&["1"]], &[]);
    assert!(matches!(
        csv.mean("zz"),
        Err(CsvError::MissingColumn { ref name }) if name == "zz"
    ));
    assert!(matches!(
        csv.median("zz"),
        Err(CsvError::MissingColumn { ref name }) if name == "zz"
    ));
    assert!(matches!(
        csv.quantile("zz", 0.5f64.to_bits()),
        Err(CsvError::MissingColumn { ref name }) if name == "zz"
    ));
}

#[test]
fn cached_mean_skips_the_column_scan() {
    let mut csv = build_csv(&["i"], &[&["1", "2", "3", "4"]], &[]);
    let plan = csv.mean("i").unwrap();
    let v1 = finish(plan, &csv, "i");
    assert_eq!(as_float(&v1), 2.5);
    csv.store_mean("i", v1);
    // swap the underlying values; the memo must answer without scanning
    match &mut csv.cols[0] {
        ColType::Integer(c) => {
            c.values = vec![100, 200, 300, 400];
        }
        _ => panic!("expected an integer column"),
    }
    match csv.mean("i").unwrap() {
        StatPlan::Value(v) => assert_eq!(as_float(&v), 2.5),
        _ => panic!("the cached mean answers without recomputation"),
    }
}

#[test]
fn storing_again_overwrites_the_cached_value() {
    let mut csv = build_csv(&["i"], &[&["1", "2"]], &[]);
    csv.store_mean("i", DataValue::Float(1.5f64.to_bits()));
    csv.store_mean("i", DataValue::Float(9.5f64.to_bits()));
    match csv.mean("i").unwrap() {
        StatPlan::Value(DataValue::Float(b)) => assert_eq!(f64::from_bits(b), 9.5),
        _ => panic!("expected the latest stored mean"),
    }
    // storing a median for the same name keeps the mean
    csv.store_median("i", DataValue::Integer(2));
    match csv.mean("i").unwrap() {
        StatPlan::Value(DataValue::Float(b)) => assert_eq!(f64::from_bits(b), 9.5),
        _ => panic!("the mean survives a median store"),
    }
    match csv.median("i").unwrap() {
        StatPlan::Value(DataValue::Integer(v)) => assert_eq!(v, 2),
        _ => panic!("expected the stored median"),
    }
}
