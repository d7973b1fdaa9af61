use dev_fixtures::mock::{bytes, csv, json_array, Rng};

#[test]
fn rng_is_deterministic() {
    let mut a = Rng::seeded(42);
    let mut b = Rng::seeded(42);
    for _ in 0..16 {
        assert_eq!(a.next_u64(), b.next_u64());
    }
}

#[test]
fn rng_differs_with_seed() {
    let mut a = Rng::seeded(1);
    let mut b = Rng::seeded(2);
    assert_ne!(a.next_u64(), b.next_u64());
}

#[test]
fn rng_range_bounds() {
    let mut r = Rng::seeded(7);
    for _ in 0..1000 {
        let v = r.range(10);
        assert!(v < 10);
    }
    assert_eq!(Rng::seeded(0).range(0), 0);
}

#[test]
fn csv_generate_is_deterministic() {
    let g = |seed| {
        csv::generate(&["a", "b"], 5, seed, |rng| {
            vec![rng.range(100).to_string(), rng.range(100).to_string()]
        })
    };
    assert_eq!(g(42), g(42));
    assert_ne!(g(42), g(43));
}

#[test]
fn csv_has_header_and_row_count() {
    let csv = csv::generate(&["x", "y"], 3, 0, |rng| {
        vec![rng.range(10).to_string(), rng.range(10).to_string()]
    });
    assert!(csv.starts_with("x,y\n"));
    assert_eq!(csv.lines().count(), 4);
}

#[test]
fn csv_escapes_commas_quotes_and_newlines() {
    let csv = csv::generate(&["a", "b"], 1, 0, |_rng| {
        vec![
            "value, with comma".into(),
            "value with \"quote\" and\nnewline".into(),
        ]
    });
    assert!(csv.contains("\"value, with comma\""));
    assert!(csv.contains("\"value with \"\"quote\"\" and\nnewline\""));
}

#[test]
fn csv_escapes_in_headers_too() {
    let csv = csv::generate(&["plain", "with, comma"], 0, 0, |_rng| vec![]);
    assert_eq!(csv.trim(), "plain,\"with, comma\"");
}

#[test]
fn csv_unescaped_when_no_special_chars() {
    let csv = csv::generate(&["a", "b"], 1, 0, |_rng| {
        vec!["plain".into(), "also plain".into()]
    });
    assert!(csv.contains("plain,also plain"));
    // No quotes added.
    assert!(!csv.contains("\""));
}

#[test]
fn json_array_round_trip_shape() {
    let json = json_array::generate(3, 0, |rng| format!("{{\"id\":{}}}", rng.range(100)));
    assert!(json.starts_with("["));
    assert!(json.ends_with("]"));
    // 3 elements -> 2 commas at top level.
    assert_eq!(json.matches(',').count(), 2);
}

#[test]
fn json_array_validates_well_formed() {
    let json =
        json_array::generate_validated(3, 0, |rng| format!("{{\"v\":{}}}", rng.range(10)))
            .unwrap();
    assert!(json.starts_with("["));
}

#[test]
fn json_array_validation_rejects_garbage_factory_output() {
    let err = json_array::generate_validated(2, 0, |_| "not_json".to_string()).unwrap_err();
    assert!(err.contains("invalid"));
}

#[test]
fn json_validate_accepts_canonical_examples() {
    for s in &[
        "{}",
        "[]",
        "[1,2,3]",
        "{\"a\":1}",
        "[{\"k\":[true,false,null]}]",
        "[\"with \\\"quote\\\"\"]",
        "{\"n\": -3.14e2}",
    ] {
        assert!(json_array::validate_json(s).is_ok(), "should accept: {}", s);
    }
}

#[test]
fn json_validate_rejects_malformed() {
    for s in &["{", "[", "[,]", "{1:1}", "[true,]"] {
        assert!(
            json_array::validate_json(s).is_err(),
            "should reject: {}",
            s
        );
    }
}

#[test]
fn csv_round_trip_with_special_chars() {
    let csv = csv::generate(&["id", "note"], 2, 0, |rng| {
        vec![
            rng.range(100).to_string(),
            "value, with comma\nand newline".into(),
        ]
    });
    let (headers, rows) = csv::parse(&csv).unwrap();
    assert_eq!(headers, vec!["id", "note"]);
    assert_eq!(rows.len(), 2);
    for row in rows {
        assert_eq!(row.len(), 2);
        assert!(row[1].contains("value, with comma"));
        assert!(row[1].contains('\n'));
    }
}

#[test]
fn csv_parse_quoted_doubled_quote() {
    let csv = "a,b\nplain,\"has \"\"quote\"\" inside\"\n";
    let (h, r) = csv::parse(csv).unwrap();
    assert_eq!(h, vec!["a", "b"]);
    assert_eq!(r[0][1], "has \"quote\" inside");
}

#[test]
fn csv_parse_rejects_unterminated_quote() {
    let csv = "a,b\n\"never closes,foo\n";
    assert!(csv::parse(csv).is_err());
}

#[test]
fn csv_parse_handles_crlf() {
    let csv = "a,b\r\n1,2\r\n3,4\r\n";
    let (h, r) = csv::parse(csv).unwrap();
    assert_eq!(h, vec!["a", "b"]);
    assert_eq!(
        r,
        vec![
            vec!["1".to_string(), "2".to_string()],
            vec!["3".to_string(), "4".to_string()]
        ]
    );
}

#[test]
fn bytes_zeros_and_patterned() {
    assert_eq!(bytes::zeros(4), vec![0, 0, 0, 0]);
    assert_eq!(bytes::patterned(5, &[1, 2]), vec![1, 2, 1, 2, 1]);
    assert_eq!(bytes::patterned(3, &[]), vec![0, 0, 0]);
}

#[test]
fn bytes_random_is_deterministic() {
    assert_eq!(bytes::random(64, 7), bytes::random(64, 7));
    assert_ne!(bytes::random(64, 7), bytes::random(64, 8));
}
