use dev_fixtures::mock::{bytes as mock_bytes, csv as mock_csv, json_array as mock_json, Rng};

#[test]
fn smoke_mock_csv_round_trip() {
    let csv1 = mock_csv::generate(&["id", "name"], 3, 7, |rng| {
        vec![rng.range(100).to_string(), format!("u{}", rng.range(10))]
    });
    let csv2 = mock_csv::generate(&["id", "name"], 3, 7, |rng| {
        vec![rng.range(100).to_string(), format!("u{}", rng.range(10))]
    });
    assert_eq!(csv1, csv2);
    assert!(csv1.starts_with("id,name\n"));
}

#[test]
fn smoke_mock_json_array_shape() {
    let json = mock_json::generate(2, 0, |rng| format!("{{\"v\":{}}}", rng.range(10)));
    assert!(json.starts_with("[") && json.ends_with("]"));
}

#[test]
fn smoke_mock_bytes_random_deterministic() {
    let a = mock_bytes::random(32, 7);
    let b = mock_bytes::random(32, 7);
    assert_eq!(a, b);
}

#[test]
fn smoke_rng_deterministic() {
    let mut a = Rng::seeded(42);
    let mut b = Rng::seeded(42);
    assert_eq!(a.next_u64(), b.next_u64());
}
