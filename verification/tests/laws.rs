use dev_fixtures::adversarial::{malformed_utf8_bytes, unusual_names};
use dev_fixtures::golden::{
    first_diff_offset, hex_preview, line_diff, BinaryGolden, CompareStep, Golden, Snapshot,
    SnapshotWrite,
};
use dev_fixtures::mock::{bytes, csv, json_array, Rng};
use dev_fixtures::report::{Check, Evidence, Severity, Verdict};
use dev_fixtures::tree::{rust_crate, rust_workspace, Entry, FileTree};
use dev_fixtures::{setup_check, FixtureProducer, TempProjectBuilder};

fn s(v: &[&str]) -> Vec<String> {
    v.iter().map(|x| x.to_string()).collect()
}

fn done(step: CompareStep) -> Check {
    match step {
        CompareStep::Done(c) => c,
        CompareStep::Write(_) => panic!("expected a decided check"),
    }
}

fn labels(c: &Check) -> Vec<String> {
    c.evidence
        .iter()
        .map(|e| match e {
            Evidence::Numeric { label, .. } => label.clone(),
            Evidence::Snippet { label, .. } => label.clone(),
        })
        .collect()
}

fn numeric_value(c: &Check, wanted: &str) -> Option<u64> {
    c.evidence.iter().find_map(|e| match e {
        Evidence::Numeric { label, value } if label == wanted => Some(*value),
        _ => None,
    })
}

#[test]
fn rng_first_value_of_seed_zero_is_splitmix64() {
    let mut r = Rng::seeded(0);
    assert_eq!(r.next_u64(), 0xE220_A839_7B1D_CDAF);
    assert_eq!(r.next_u64(), 0x6E78_9E6A_A1B9_65F4);
}

#[test]
fn rng_range_is_next_value_modulo_n() {
    let mut a = Rng::seeded(99);
    let mut b = Rng::seeded(99);
    let v = a.next_u64();
    assert_eq!(b.range(1000), v % 1000);
    // range(0) does not step the generator.
    let mut c = Rng::seeded(5);
    let mut d = Rng::seeded(5);
    assert_eq!(c.range(0), 0);
    assert_eq!(c.next_u64(), d.next_u64());
}

#[test]
fn rng_different_seeds_draw_different_first_values() {
    for seed in 0..200u64 {
        let mut a = Rng::seeded(seed);
        let mut b = Rng::seeded(seed + 1);
        assert_ne!(a.next_u64(), b.next_u64());
    }
}

#[test]
fn random_bytes_are_little_endian_values() {
    let out = bytes::random(10, 0);
    let first = 0xE220_A839_7B1D_CDAFu64.to_le_bytes();
    let second = 0x6E78_9E6A_A1B9_65F4u64.to_le_bytes();
    assert_eq!(&out[..8], &first[..]);
    assert_eq!(&out[8..], &second[..2]);
}

#[test]
fn random_bytes_shorter_is_prefix_of_longer() {
    let short = bytes::random(13, 42);
    let long = bytes::random(40, 42);
    assert_eq!(&long[..13], &short[..]);
    assert!(bytes::random(0, 1).is_empty());
}

#[test]
fn random_bytes_differ_for_different_seeds() {
    assert_ne!(bytes::random(8, 1), bytes::random(8, 2));
}

#[test]
fn patterned_repeats_pattern() {
    assert_eq!(bytes::patterned(7, &[0xAB, 0xCD]), vec![0xAB, 0xCD, 0xAB, 0xCD, 0xAB, 0xCD, 0xAB]);
    assert_eq!(bytes::patterned(0, &[1]), Vec::<u8>::new());
    assert_eq!(bytes::zeros(0), Vec::<u8>::new());
}

#[test]
fn escape_field_examples() {
    assert_eq!(csv::escape_field("plain"), "plain");
    assert_eq!(csv::escape_field(""), "");
    assert_eq!(csv::escape_field("a,b"), "\"a,b\"");
    assert_eq!(csv::escape_field("say \"hi\""), "\"say \"\"hi\"\"\"");
    assert_eq!(csv::escape_field("cr\r"), "\"cr\r\"");
    assert_eq!(csv::escape_field("line\nbreak"), "\"line\nbreak\"");
}

#[test]
fn render_lays_out_header_and_rows() {
    let rows = vec![s(&["1", "x,y"]), s(&["2", "q\"q"])];
    let out = csv::render(&["id", "v"], &rows);
    assert_eq!(out, "id,v\n1,\"x,y\"\n2,\"q\"\"q\"\n");
    assert_eq!(csv::render(&["only"], &[]), "only\n");
}

#[test]
fn csv_round_trip_of_render() {
    let rows = vec![
        s(&["", "a", "\"quoted\""]),
        s(&["with\r\nCRLF", ",", "x"]),
        s(&["single", "", ""]),
    ];
    let text = csv::render(&["h1", "h,2", "h\"3"], &rows);
    let (headers, parsed) = csv::parse(&text).unwrap();
    assert_eq!(headers, s(&["h1", "h,2", "h\"3"]));
    assert_eq!(parsed, rows);
    // A last record of one empty field renders as a trailing empty line, which is ignored.
    let text = csv::render(&["h"], &[s(&["v"]), s(&[""])]);
    assert_eq!(text, "h\nv\n\n");
    assert_eq!(csv::parse(&text).unwrap(), (s(&["h"]), vec![s(&["v"])]));
}

#[test]
fn csv_parse_edge_cases() {
    assert_eq!(csv::parse("").unwrap(), (vec![], vec![]));
    assert_eq!(csv::parse("a,b").unwrap(), (s(&["a", "b"]), vec![]));
    // Trailing empty lines are ignored; an empty line before a record is not.
    assert_eq!(csv::parse("a\n\n").unwrap(), (s(&["a"]), vec![]));
    assert_eq!(csv::parse("a,b\r\n1,2\r\n\r\n\n").unwrap(), (s(&["a", "b"]), vec![s(&["1", "2"])]));
    assert_eq!(csv::parse("a\n\nb\n").unwrap(), (s(&["a"]), vec![s(&[""]), s(&["b"])]));
    assert_eq!(csv::parse("\n\n").unwrap(), (vec![], vec![]));
    // A quoted empty field is content, not an empty line.
    assert_eq!(csv::parse("a\n\"\"\n").unwrap(), (s(&["a"]), vec![s(&[""])]));
    assert_eq!(csv::parse("a\rb\n").unwrap(), (s(&["a"]), vec![s(&["b"])]));
    assert_eq!(csv::parse("x,\n").unwrap(), (s(&["x", ""]), vec![]));
    assert_eq!(csv::parse("ab\"c\n").unwrap(), (s(&["ab\"c"]), vec![]));
    assert_eq!(
        csv::parse("\"open").unwrap_err(),
        "unterminated quoted field at EOF"
    );
}

#[test]
fn json_render_joins_elements() {
    assert_eq!(json_array::render(&[]), "[]");
    assert_eq!(json_array::render(&s(&["1", "{}", "\"a\""])), "[1,{},\"a\"]");
}

#[test]
fn json_generate_of_valid_elements_validates() {
    let json = json_array::generate(5, 3, |rng| format!("[{}, true]", rng.range(50)));
    assert!(json_array::validate_json(&json).is_ok());
    assert_eq!(json_array::generate(0, 3, |_| "1".to_string()), "[]");
    let spaced = json_array::generate_validated(3, 0, |_| " {\"k\": [1, -2]} \n".to_string());
    assert!(spaced.is_ok());
}

#[test]
fn json_error_messages() {
    let cases = [
        ("", "unexpected end of input"),
        ("   ", "unexpected end of input"),
        ("x", "invalid JSON: unexpected 'x' at position 0"),
        ("{\"a\" 1}", "expected ':' at position 5"),
        ("{\"a\":1 2}", "expected ',' or '}' in object at position 7"),
        ("[1 2]", "expected ',' or ']' in array at position 3"),
        ("{1:1}", "expected string at position 1"),
        ("\"ab\\", "unterminated escape in string"),
        ("\"ab", "unterminated string"),
        ("tru", "invalid bool at position 0"),
        ("nul", "invalid null at position 0"),
        ("-", "invalid number at position 0"),
        ("1 2", "trailing characters after JSON value at position 2"),
        ("[", "unexpected end of input"),
        ("[,]", "invalid JSON: unexpected ',' at position 1"),
        ("[true,]", "invalid JSON: unexpected ']' at position 6"),
    ];
    for (text, message) in cases {
        assert_eq!(json_array::validate_json(text).unwrap_err(), message, "input: {}", text);
    }
}

#[test]
fn json_texts_are_accepted() {
    let texts = [
        "0",
        "-0.5e+10",
        "\"\\u00e9 \\n \\/ \\\\ \\\"\"",
        " [ 1 , [ ] , { } , { \"a\" : [ true , false , null ] } ] ",
        "{\"k\":{\"n\":-12.75E-3,\"s\":\"caf\u{e9} \u{2705}\"}}",
    ];
    for text in texts {
        assert!(json_array::validate_json(text).is_ok(), "should accept: {}", text);
    }
}

#[test]
fn json_validator_checks_structure_not_semantics() {
    // Duplicate keys are accepted; whitespace around and inside is allowed.
    assert!(json_array::validate_json("{\"a\":1,\"a\":2}").is_ok());
    assert!(json_array::validate_json(" \t\r\n[ ] \n").is_ok());
}

#[test]
fn json_validator_rejects_what_is_not_json() {
    let cases = [
        ("[01]", "expected ',' or ']' in array at position 2"),
        ("[1.2.3]", "expected ',' or ']' in array at position 4"),
        ("[1] x", "trailing characters after JSON value at position 4"),
        ("1e+-.5", "invalid number at position 0"),
        ("-a", "invalid number at position 0"),
        ("1.", "invalid number at position 0"),
        ("[.5]", "invalid JSON: unexpected '.' at position 1"),
        ("\"\\q\"", "invalid escape in string at position 1"),
        ("\"\\u12g4\"", "invalid escape in string at position 1"),
        ("\"a\u{1}\"", "control character in string at position 2"),
    ];
    for (text, message) in cases {
        assert_eq!(json_array::validate_json(text).unwrap_err(), message, "input: {}", text);
    }
}

#[test]
fn generate_validated_reports_the_first_error() {
    let err = json_array::generate_validated(1, 0, |_| "not_json".to_string()).unwrap_err();
    assert_eq!(err, "invalid null at position 1");
    let ok = json_array::generate_validated(2, 0, |_| "null".to_string()).unwrap();
    assert_eq!(ok, "[null,null]");
}

#[test]
fn line_diff_exact_output() {
    assert_eq!(line_diff("a\nb\nc\n", "a\nx\nc\n"), " a\n-b\n+x\n c\n");
    assert_eq!(line_diff("a\n", "a\nb\n"), " a\n+b\n");
    assert_eq!(line_diff("a\r\nb", "a\nc"), " a\n-b\n+c\n");
    assert_eq!(line_diff("", ""), "");
}

#[test]
fn line_diff_keeps_a_longest_common_subsequence() {
    // A deletion or insertion in the middle is a single line, not a cascade of pairs.
    assert_eq!(line_diff("a\nb\nc\n", "a\nc\n"), " a\n-b\n c\n");
    assert_eq!(line_diff("a\nc\n", "a\nb\nc\n"), " a\n+b\n c\n");
    assert_eq!(line_diff("x\na\nb\n", "a\nb\n"), "-x\n a\n b\n");
    // Where the choice is free, the removal comes first.
    assert_eq!(line_diff("a\nb\n", "b\na\n"), "-a\n b\n+a\n");
    assert_eq!(line_diff("one\ntwo\n", ""), "-one\n-two\n");
    assert_eq!(line_diff("", "one\n"), "+one\n");
}

#[test]
fn line_diff_of_equal_texts_has_only_context() {
    let d = line_diff("x\ny\n", "x\ny\n");
    assert_eq!(d, " x\n y\n");
}

#[test]
fn hex_preview_examples() {
    assert_eq!(hex_preview(&[0x01, 0xab, 0xff], 1, 32), "offset 1: ab ff");
    assert_eq!(hex_preview(&[0x00, 0x10, 0x20], 0, 2), "offset 0: 00 10");
    assert_eq!(hex_preview(&[1, 2], 2, 4), "offset 2: ");
}

#[test]
fn first_diff_offset_of_unrelated() {
    assert_eq!(first_diff_offset(&[9], &[1, 2]), 0);
}

#[test]
fn golden_missing_snapshot_is_written_then_matches() {
    let g = Golden::new("/tmp/snap.txt");
    assert!(matches!(
        g.decide("greet", "hello\n", &Snapshot::Missing, false),
        CompareStep::Write(SnapshotWrite::Create)
    ));
    let c = g.after_write("greet", "hello\n", SnapshotWrite::Create, Ok(()));
    assert_eq!(c.verdict, Verdict::Skip);
    assert!(c.has_tag("created") && c.has_tag("fixtures") && c.has_tag("golden"));
    assert_eq!(c.detail.as_deref(), Some("created snapshot at /tmp/snap.txt"));
    let c2 = done(g.decide("greet", "hello\n", &Snapshot::Stored("hello\n".to_string()), false));
    assert_eq!(c2.verdict, Verdict::Pass);
    assert_eq!(c2.name, "fixtures::golden::greet");
    assert_eq!(numeric_value(&c2, "actual_bytes"), Some(6));
    assert_eq!(numeric_value(&c2, "expected_bytes"), Some(6));
}

#[test]
fn golden_mismatch_fails_with_diff() {
    let g = Golden::new("snap.txt");
    let c = done(g.decide(
        "greet",
        "hello\nuniverse\n",
        &Snapshot::Stored("hello\nworld\n".to_string()),
        false,
    ));
    assert_eq!(c.verdict, Verdict::Fail);
    assert_eq!(c.severity, Some(Severity::Error));
    assert!(c.has_tag("regression"));
    assert_eq!(
        c.detail.as_deref(),
        Some("snapshot mismatch:\n hello\n-world\n+universe\n")
    );
    assert_eq!(labels(&c), s(&["actual_bytes", "expected_bytes", "expected", "actual", "diff"]));
}

#[test]
fn golden_update_mode_and_io_errors() {
    let g = Golden::new("snap.txt");
    assert!(matches!(
        g.decide("x", "new\n", &Snapshot::Stored("old\n".to_string()), true),
        CompareStep::Write(SnapshotWrite::Update)
    ));
    let c = g.after_write("x", "new\n", SnapshotWrite::Update, Ok(()));
    assert_eq!(c.verdict, Verdict::Skip);
    assert!(c.has_tag("updated"));
    let failed = g.after_write("x", "new\n", SnapshotWrite::Update, Err("disk full".to_string()));
    assert_eq!(failed.verdict, Verdict::Fail);
    assert!(failed.has_tag("io_error") && failed.has_tag("regression"));
    assert_eq!(failed.detail.as_deref(), Some("could not update snapshot: disk full"));
    let unreadable = done(g.decide("x", "new\n", &Snapshot::Unreadable("denied".to_string()), false));
    assert_eq!(unreadable.detail.as_deref(), Some("could not read snapshot: denied"));
    assert!(unreadable.has_tag("io_error"));
    let create_failed = g.after_write("x", "n", SnapshotWrite::Create, Err("ro".to_string()));
    assert_eq!(create_failed.detail.as_deref(), Some("could not create snapshot: ro"));
}

#[test]
fn binary_golden_mismatch_reports_offset_and_previews() {
    let g = BinaryGolden::new("snap.bin");
    let c = done(g.decide("frame", &[1, 2, 99, 4, 5], &Snapshot::Stored(vec![1, 2, 3, 4, 5]), false));
    assert_eq!(c.verdict, Verdict::Fail);
    assert!(c.has_tag("binary") && c.has_tag("regression"));
    assert_eq!(
        c.detail.as_deref(),
        Some("binary mismatch (expected 5 bytes, actual 5 bytes, first diff at offset 2)")
    );
    assert_eq!(numeric_value(&c, "first_diff_offset"), Some(2));
    let previews: Vec<String> = c
        .evidence
        .iter()
        .filter_map(|e| match e {
            Evidence::Snippet { text, .. } => Some(text.clone()),
            _ => None,
        })
        .collect();
    assert_eq!(previews, s(&["offset 2: 03 04 05", "offset 2: 63 04 05"]));
    let pass = done(g.decide("frame", &[7], &Snapshot::Stored(vec![7]), true));
    assert_eq!(pass.verdict, Verdict::Pass);
    assert!(pass.has_tag("binary"));
}

#[test]
fn setup_and_lifecycle_checks() {
    let ok = setup_check("db", Ok(()));
    assert_eq!(ok.verdict, Verdict::Pass);
    assert_eq!(ok.name, "fixtures::db");
    assert!(ok.has_tag("fixtures"));
    assert_eq!(numeric_value(&ok, "setup_ok"), Some(1));
    let bad = setup_check("db", Err("boom".to_string()));
    assert_eq!(bad.verdict, Verdict::Fail);
    assert_eq!(bad.severity, Some(Severity::Critical));
    assert!(bad.has_tag("setup_failed") && bad.has_tag("regression"));
    assert_eq!(bad.detail.as_deref(), Some("set_up failed: boom"));
    assert_eq!(numeric_value(&bad, "setup_ok"), Some(0));

    let p = FixtureProducer::new("smoke", "0.1.0", || Ok(()));
    assert_eq!(p.name(), "smoke");
    assert_eq!(p.subject_version(), "0.1.0");
    assert!((p.run())().is_ok());
    let c = p.lifecycle_check(Ok(()), 12);
    assert_eq!(c.verdict, Verdict::Pass);
    assert_eq!(c.duration_ms, Some(12));
    assert_eq!(numeric_value(&c, "elapsed_ms"), Some(12));
    let f = p.lifecycle_check(Err("nope".to_string()), 3);
    assert_eq!(f.detail.as_deref(), Some("fixture lifecycle failed: nope"));
    assert_eq!(f.duration_ms, None);
}

#[test]
fn file_tree_stages_entries_in_order() {
    let t = FileTree::new("/root")
        .file("a.txt", "hello")
        .dir("empty")
        .bytes("b.bin", vec![0, 255])
        .symlink("link", "a.txt");
    assert_eq!(t.root(), "/root");
    let e = t.entries();
    assert_eq!(e.len(), 4);
    assert!(matches!(&e[0], Entry::File { path, contents } if path == "a.txt" && contents == b"hello"));
    assert!(matches!(&e[1], Entry::Dir { path } if path == "empty"));
    assert!(matches!(&e[2], Entry::File { path, contents } if path == "b.bin" && contents == &vec![0u8, 255]));
    assert!(matches!(&e[3], Entry::Symlink { link, target } if link == "link" && target == "a.txt"));
}

#[test]
fn rust_crate_and_workspace_manifests() {
    let t = rust_crate("r", "sample", "0.1.0");
    let e = t.entries();
    assert!(matches!(&e[0], Entry::File { path, contents }
        if path == "Cargo.toml"
            && contents == b"[package]\nname = \"sample\"\nversion = \"0.1.0\"\nedition = \"2021\"\n\n[lib]\npath = \"src/lib.rs\"\n"));
    assert!(matches!(&e[1], Entry::File { path, contents }
        if path == "src/lib.rs" && contents == b"//! Sample crate.\n"));
    let ws = rust_workspace("r", &["alpha", "beta"]);
    assert_eq!(ws.len(), 3);
    let w = &ws[0];
    assert_eq!(w.root(), "r");
    assert_eq!(w.entries().len(), 1);
    assert!(matches!(&w.entries()[0], Entry::File { path, contents }
        if path == "Cargo.toml"
            && contents == b"[workspace]\nresolver = \"2\"\nmembers = [\n    \"alpha\",\n    \"beta\",\n]\n"));
    let beta = &ws[2];
    assert_eq!(std::path::Path::new(beta.root()), std::path::Path::new("r").join("beta"));
    assert!(matches!(&beta.entries()[0], Entry::File { path, contents }
        if path == "Cargo.toml"
            && contents == b"[package]\nname = \"beta\"\nversion = \"0.0.0\"\nedition = \"2021\"\n\n[lib]\npath = \"src/lib.rs\"\n"));
}

#[test]
fn temp_project_builder_stages_files() {
    let b = TempProjectBuilder::default()
        .with_file("a.txt", "hello")
        .with_bytes("b.bin", vec![1, 2, 3]);
    let f = b.files();
    assert_eq!(f.len(), 2);
    assert_eq!(f[0], ("a.txt".to_string(), b"hello".to_vec()));
    assert_eq!(f[1], ("b.bin".to_string(), vec![1, 2, 3]));
}

#[test]
fn unusual_names_are_the_pool_prefix() {
    let all = unusual_names(100);
    assert_eq!(all.len(), 10);
    assert_eq!(all[0], ".hidden_file");
    assert_eq!(all[3], "résumé.tex");
    assert_eq!(all[6], "emoji-✅-name.txt");
    assert_eq!(all[7], format!("long_name_{}", "x".repeat(120)));
    assert_eq!(unusual_names(0).len(), 0);
    assert_eq!(unusual_names(2), s(&[".hidden_file", "with space.txt"]));
}

#[test]
fn malformed_bytes_are_not_utf8() {
    let b = malformed_utf8_bytes();
    assert!(std::str::from_utf8(&b).is_err());
    assert!(b.starts_with(b"valid ascii prefix\n\xFF\xFE\xFD\xFC"));
    assert!(b.ends_with(b"more after the bad bytes\n"));
}

#[test]
fn unusual_names_are_usable_file_names() {
    let names = unusual_names(100);
    assert_eq!(names.len(), 10);
    for (i, n) in names.iter().enumerate() {
        assert!(!n.is_empty());
        assert!(!n.contains('/') && !n.contains('\0'));
        assert!(n.len() <= 255);
        for m in &names[i + 1..] {
            assert_ne!(n, m);
        }
    }
    assert_eq!(unusual_names(3), names[..3].to_vec());
}

#[test]
fn line_diff_sides_give_back_both_texts() {
    let expected = "a\nb\nc\nd\n";
    let actual = "b\nx\nd\ne\n";
    let d = line_diff(expected, actual);
    let old: Vec<&str> = d.lines().filter(|l| !l.starts_with('+')).map(|l| &l[1..]).collect();
    let new: Vec<&str> = d.lines().filter(|l| !l.starts_with('-')).map(|l| &l[1..]).collect();
    assert_eq!(old, expected.lines().collect::<Vec<_>>());
    assert_eq!(new, actual.lines().collect::<Vec<_>>());
}
