use csv_stats::{ColConfig, ColType, Csv, CsvConfig, CsvError, DataValue};
use std::str::FromStr;

fn cells(texts: &[&str]) -> Vec<String> {
    texts.iter().map(|s| s.to_string()).collect()
}

fn float_attempt(texts: &[&str]) -> Option<Vec<u64>> {
    texts
        .iter()
        .map(|s| s.parse::<f64>().ok().map(f64::to_bits))
        .collect()
}

fn infer(texts: &[&str]) -> ColType {
    ColType::from_values(&cells(texts), "col".to_string(), None, float_attempt(texts)).unwrap()
}

#[test]
fn inference_prefers_integer() {
    let col = infer(&["1", "2", "3"]);
    match col {
        ColType::Integer(c) => {
            assert_eq!(c.values, vec![1i64, 2, 3]);
            assert_eq!(c.n_elements, 3);
        }
        _ => panic!("expected an integer column"),
    }
}

#[test]
fn inference_falls_back_to_float() {
    let col = infer(&["1", "2.5", "3"]);
    match col {
        ColType::Float(c) => {
            let vals: Vec<f64> = c.values.iter().map(|&b| f64::from_bits(b)).collect();
            assert_eq!(vals, vec![1.0, 2.5, 3.0]);
        }
        _ => panic!("expected a float column"),
    }
}

#[test]
fn inference_falls_back_to_string() {
    let col = infer(&["1", "a", "3"]);
    match col {
        ColType::String(c) => {
            assert_eq!(c.values, vec!["1".to_string(), "a".to_string(), "3".to_string()]);
        }
        _ => panic!("expected a string column"),
    }
}

#[test]
fn forced_datetime_failure_is_invalid_column_type() {
    let config = Some(ColConfig { date_format: None, as_date: true });
    let texts = ["2023-01-15T10:30:00", "not a date"];
    let r = ColType::from_values(&cells(&texts), "when".to_string(), config, float_attempt(&texts));
    assert!(matches!(r, Err(CsvError::InvalidColumnType { ref name }) if name == "when"));
}

#[test]
fn forced_datetime_success_holds_parsed_instants() {
    let config = Some(ColConfig { date_format: None, as_date: true });
    let texts = ["2023-01-15T10:30:00", "1970-01-01T00:00:00"];
    let col =
        ColType::from_values(&cells(&texts), "when".to_string(), config, float_attempt(&texts))
            .unwrap();
    let expected0 = datetime::LocalDateTime::from_str("2023-01-15T10:30:00")
        .unwrap()
        .to_instant();
    match col {
        ColType::Datetime(c) => {
            assert_eq!(c.values.len(), 2);
            assert_eq!(c.values[0].seconds, expected0.seconds());
            assert_eq!(c.values[0].milliseconds, expected0.milliseconds());
            assert_eq!(c.values[1].seconds, 0);
        }
        _ => panic!("expected a datetime column"),
    }
}

#[test]
fn integer_text_edges() {
    match infer(&["+5", "-7", "007"]) {
        ColType::Integer(c) => assert_eq!(c.values, vec![5i64, -7, 7]),
        _ => panic!("expected an integer column"),
    }
    match infer(&["9223372036854775807", "-9223372036854775808"]) {
        ColType::Integer(c) => assert_eq!(c.values, vec![i64::MAX, i64::MIN]),
        _ => panic!("expected an integer column"),
    }
    // one past the integer range parses as a float instead
    match infer(&["9223372036854775808"]) {
        ColType::Float(c) => assert_eq!(f64::from_bits(c.values[0]), 9223372036854775808.0),
        _ => panic!("expected a float column"),
    }
    // a lone sign or empty text is not a number at all
    assert!(matches!(infer(&["-"]), ColType::String(_)));
    assert!(matches!(infer(&[""]), ColType::String(_)));
    assert!(matches!(infer(&[" 1"]), ColType::String(_)));
}

fn build_csv(names: &[&str], cols: &[&[&str]], date_cols: &[&str]) -> Result<Csv, CsvError> {
    let header: Vec<String> = names.iter().map(|s| s.to_string()).collect();
    let columns: Vec<Vec<String>> = cols.iter().map(|c| cells(c)).collect();
    let fp: Vec<Option<Vec<u64>>> = cols.iter().map(|c| float_attempt(c)).collect();
    let config = CsvConfig {
        separator: ',',
        header: None,
        parser_as_date: if date_cols.is_empty() {
            None
        } else {
            Some(date_cols.iter().map(|n| (n.to_string(), None)).collect())
        },
    };
    Csv::from_cells(header, columns, &config, fp)
}

#[test]
fn from_cells_types_each_column() {
    let csv = build_csv(
        &["id", "score", "tag"],
        &[&["1", "2", "3"], &["1.5", "2.5", "3.5"], &["x", "y", "z"]],
        &[],
    )
    .unwrap();
    assert_eq!(csv.n_cols, 3);
    assert_eq!(csv.n_rows, 3);
    assert!(matches!(csv.get_col("id").unwrap(), ColType::Integer(_)));
    assert!(matches!(csv.get_col("score").unwrap(), ColType::Float(_)));
    assert!(matches!(csv.get_col("tag").unwrap(), ColType::String(_)));
}

#[test]
fn from_cells_forced_datetime_column() {
    let csv = build_csv(
        &["id", "when"],
        &[&["1"], &["2023-01-15T10:30:00"]],
        &["when"],
    )
    .unwrap();
    assert!(matches!(csv.get_col("when").unwrap(), ColType::Datetime(_)));
    let r = build_csv(&["when"], &[&["nope"]], &["when"]);
    assert!(matches!(r, Err(CsvError::InvalidColumnType { ref name }) if name == "when"));
}

#[test]
fn missing_column_lookup_fails() {
    let csv = build_csv(&["a"], &[&["1"]], &[]).unwrap();
    assert!(matches!(
        csv.get_col("b"),
        Err(CsvError::MissingColumn { ref name }) if name == "b"
    ));
    assert!(csv.get_col("a").is_ok());
}

#[test]
fn duplicate_names_first_match_wins() {
    let csv = build_csv(&["a", "a"], &[&["1"], &["x"]], &[]).unwrap();
    // the first column named "a" is the integer one
    assert!(matches!(csv.get_col("a").unwrap(), ColType::Integer(_)));
    match csv.value_at("a", 0).unwrap() {
        DataValue::Integer(v) => assert_eq!(v, 1),
        _ => panic!("expected the first matching column"),
    }
}
