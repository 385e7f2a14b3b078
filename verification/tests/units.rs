use csv_stats::fbits::{
    check_quantile_bits, le_f64_bits, quantile_index_int, F64_INF_BITS, F64_ONE_BITS, F64_SIGN_BIT,
};
use csv_stats::col::max_display_width;
use csv_stats::parse_int::parse_i64;
use csv_stats::selection::{select_rank, select_rank_with, PivotStrategy};
use csv_stats::{Csv, CsvConfig, CsvError, DataValue};

#[test]
fn bit_pattern_constants_match_the_encoding() {
    assert_eq!(F64_ONE_BITS, 1.0f64.to_bits());
    assert_eq!(F64_SIGN_BIT, (-0.0f64).to_bits());
    assert_eq!(F64_INF_BITS, f64::INFINITY.to_bits());
}

#[test]
fn quantile_validity_matches_float_comparison() {
    for q in [
        0.0f64, -0.0, 0.25, 0.5, 0.9999, 1.0, 1.5, -0.1, -1.0,
        f64::NAN, f64::INFINITY, f64::NEG_INFINITY, f64::MIN_POSITIVE, 5e-324,
    ] {
        let expected = (0.0..1.0).contains(&q);
        assert_eq!(check_quantile_bits(q.to_bits()), expected, "level {q}");
    }
}

#[test]
fn total_order_comparison_matches_float_order() {
    let samples = [-5.5f64, -0.0, 0.0, 1.0, 2.5, f64::INFINITY, f64::NEG_INFINITY];
    for &a in &samples {
        for &b in &samples {
            if a < b {
                assert!(le_f64_bits(a.to_bits(), b.to_bits()), "{a} vs {b}");
                assert!(!le_f64_bits(b.to_bits(), a.to_bits()), "{b} vs {a}");
            }
        }
    }
    // the total order distinguishes the zeros and places NaN at the top
    assert!(le_f64_bits((-0.0f64).to_bits(), 0.0f64.to_bits()));
    assert!(!le_f64_bits(0.0f64.to_bits(), (-0.0f64).to_bits()));
    assert!(le_f64_bits(f64::INFINITY.to_bits(), f64::NAN.to_bits()));
}

#[test]
fn nearest_rank_index_follows_the_ceiling_formula() {
    // ceil(q * n) - 1, negative treated as 0, clamped to n - 1
    assert_eq!(quantile_index_int(0.5f64.to_bits(), 4), 1);
    assert_eq!(quantile_index_int(0.0f64.to_bits(), 4), 0);
    assert_eq!(quantile_index_int(0.25f64.to_bits(), 4), 0);
    assert_eq!(quantile_index_int(0.26f64.to_bits(), 4), 1);
    assert_eq!(quantile_index_int(0.75f64.to_bits(), 4), 2);
    assert_eq!(quantile_index_int(0.76f64.to_bits(), 4), 3);
    assert_eq!(quantile_index_int(0.999f64.to_bits(), 4), 3);
    assert_eq!(quantile_index_int(0.5f64.to_bits(), 1), 0);
    assert_eq!(quantile_index_int(5e-324f64.to_bits(), 1000), 0);
}

#[test]
fn integer_parse_accepts_exactly_integer_text() {
    assert_eq!(parse_i64("0"), Some(0));
    assert_eq!(parse_i64("42"), Some(42));
    assert_eq!(parse_i64("+42"), Some(42));
    assert_eq!(parse_i64("-42"), Some(-42));
    assert_eq!(parse_i64("007"), Some(7));
    assert_eq!(parse_i64("9223372036854775807"), Some(i64::MAX));
    assert_eq!(parse_i64("-9223372036854775808"), Some(i64::MIN));
    assert_eq!(parse_i64("9223372036854775808"), None);
    assert_eq!(parse_i64("-9223372036854775809"), None);
    assert_eq!(parse_i64("184467440737095516150"), None);
    assert_eq!(parse_i64(""), None);
    assert_eq!(parse_i64("-"), None);
    assert_eq!(parse_i64("+"), None);
    assert_eq!(parse_i64(" 1"), None);
    assert_eq!(parse_i64("1 "), None);
    assert_eq!(parse_i64("1.5"), None);
    assert_eq!(parse_i64("1e3"), None);
    assert_eq!(parse_i64("--1"), None);
    // agreement with the standard parse on all of the above
    for s in [
        "0", "42", "+42", "-42", "007", "9223372036854775807", "-9223372036854775808",
        "9223372036854775808", "", "-", "+", " 1", "1 ", "1.5", "1e3", "--1",
    ] {
        assert_eq!(parse_i64(s), s.parse::<i64>().ok(), "text {s:?}");
    }
}

fn build_csv(names: &[&str], cols: &[&[&str]]) -> Csv {
    let header: Vec<String> = names.iter().map(|s| s.to_string()).collect();
    let columns: Vec<Vec<String>> = cols
        .iter()
        .map(|c| c.iter().map(|s| s.to_string()).collect())
        .collect();
    let fp: Vec<Option<Vec<u64>>> = cols
        .iter()
        .map(|c| c.iter().map(|s| s.parse::<f64>().ok().map(f64::to_bits)).collect())
        .collect();
    let config = CsvConfig { separator: ',', header: None, parser_as_date: None };
    Csv::from_cells(header, columns, &config, fp).unwrap()
}

#[test]
fn display_range_reads_rows_and_checks_bounds() {
    let csv = build_csv(&["i", "s"], &[&["1", "2", "3"], &["a", "b", "c"]]);
    let rows = csv.display_range(1, 3).unwrap();
    assert_eq!(rows.len(), 2);
    assert_eq!(rows[0].len(), 2);
    assert!(matches!(rows[0][0], DataValue::Integer(2)));
    assert!(matches!(rows[0][1], DataValue::Integer(3)));
    assert!(matches!(rows[1][0], DataValue::String(ref s) if s == "b"));
    assert!(matches!(csv.display_range(2, 4), Err(CsvError::InvalidRange)));
    assert!(matches!(csv.display_range(2, 1), Err(CsvError::InvalidRange)));
}

#[test]
fn head_rows_takes_a_prefix_or_fails() {
    let csv = build_csv(&["i"], &[&["1", "2", "3"]]);
    let head = csv.head_rows(2).unwrap();
    assert_eq!(head.len(), 1);
    assert_eq!(head[0].len(), 2);
    assert!(matches!(head[0][0], DataValue::Integer(1)));
    assert!(matches!(
        csv.head_rows(4),
        Err(CsvError::OutOfLines { n: 4, len: 3 })
    ));
}

struct FirstPivot;

impl PivotStrategy for FirstPivot {
    fn pick(&mut self, _len: usize) -> usize {
        0
    }
}

#[test]
fn selection_finds_every_rank() {
    let v: Vec<i64> = vec![5, -3, 9, 0, 5, 7, -3, 2];
    let mut sorted = v.clone();
    sorted.sort();
    for k in 0..v.len() {
        assert_eq!(select_rank(&v, k), sorted[k]);
        // an injected adversarial strategy changes the work, not the answer
        let mut strategy = FirstPivot;
        assert_eq!(select_rank_with(&v, k, &mut strategy), sorted[k]);
    }
}

#[test]
fn max_width_measures_the_widest_line() {
    let lines: Vec<String> = vec!["a".to_string(), "abcd".to_string(), "ab".to_string()];
    assert_eq!(max_display_width(&lines), 4);
    let empty: Vec<String> = Vec::new();
    assert_eq!(max_display_width(&empty), 0);
}
