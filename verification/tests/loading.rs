use fastymllint::pyyaml::loader::{construct_bool, construct_float, construct_int, load, parse_i64_radix, split_char};
use fastymllint::pyyaml::value::{copy_value, values_equal, YamlMapping, YamlValue};

fn read_double(s: &str) -> Option<u64> {
    s.parse::<f64>().ok().map(f64::to_bits)
}

fn load_str(s: &str) -> YamlValue {
    load(s, &read_double).expect("loads")
}

fn chars(s: &str) -> Vec<char> {
    s.chars().collect()
}

fn scalar(s: &str) -> YamlValue {
    load_str(s)
}

#[test]
fn test_load_empty_stream_is_null() {
    assert!(matches!(load_str(""), YamlValue::Null));
    assert!(matches!(load_str("# only a comment\n"), YamlValue::Null));
}

#[test]
fn test_load_mapping_and_sequence() {
    let v = load_str("a: 1\nb: [x, y]\n");
    let m = v.as_mapping().expect("mapping");
    assert_eq!(m.iter().len(), 2);
    assert_eq!(m.get("a").and_then(|v| v.as_i64()), Some(1));
    let seq = m.get("b").and_then(|v| v.as_sequence()).expect("sequence");
    assert_eq!(seq.len(), 2);
    assert_eq!(seq[0].as_str(), Some("x"));
    assert_eq!(seq[1].as_str(), Some("y"));
    assert!(m.contains_key("b"));
    assert!(!m.contains_key("c"));
}

#[test]
fn test_load_block_structures() {
    let v = load_str("rules:\n  line-length:\n    max: 120\n  truthy: disable\nignore: |\n  *.tmp\n");
    let m = v.as_mapping().expect("mapping");
    let rules = m.get("rules").and_then(|v| v.as_mapping()).expect("rules");
    let ll = rules.get("line-length").and_then(|v| v.as_mapping()).expect("line-length");
    assert_eq!(ll.get("max").and_then(|v| v.as_i64()), Some(120));
    assert_eq!(rules.get("truthy").and_then(|v| v.as_str()), Some("disable"));
    assert_eq!(m.get("ignore").and_then(|v| v.as_str()), Some("*.tmp\n"));
}

#[test]
fn test_load_booleans() {
    for word in ["yes", "Yes", "YES", "true", "True", "TRUE", "on", "On", "ON"] {
        assert_eq!(scalar(word).as_bool(), Some(true), "{word}");
    }
    for word in ["no", "false", "off", "NO", "Off"] {
        assert_eq!(scalar(word).as_bool(), Some(false), "{word}");
    }
}

#[test]
fn test_load_integers() {
    assert_eq!(scalar("12").as_i64(), Some(12));
    assert_eq!(scalar("-12").as_i64(), Some(-12));
    assert_eq!(scalar("+7").as_i64(), Some(7));
    assert_eq!(scalar("1_000").as_i64(), Some(1000));
    assert_eq!(scalar("0x1f").as_i64(), Some(31));
    assert_eq!(scalar("0b101").as_i64(), Some(5));
    assert_eq!(scalar("017").as_i64(), Some(15));
    assert_eq!(scalar("190:20:30").as_i64(), Some(685230));
    assert_eq!(scalar("0").as_i64(), Some(0));
}

#[test]
fn test_load_nulls_and_strings() {
    assert!(matches!(scalar("~"), YamlValue::Null));
    assert!(matches!(scalar("null"), YamlValue::Null));
    assert_eq!(scalar("'1'").as_str(), Some("1"));
    assert_eq!(scalar("\"yes\"").as_str(), Some("yes"));
    assert_eq!(scalar("hello world").as_str(), Some("hello world"));
    assert!(scalar("x").is_string());
    assert!(scalar("true").is_bool());
}

#[test]
fn test_load_floats() {
    assert!(matches!(scalar("1.5"), YamlValue::Float(b) if b == 1.5f64.to_bits()));
    assert!(matches!(scalar("-2.5e+3"), YamlValue::Float(b) if b == (-2500.0f64).to_bits()));
    assert!(matches!(scalar(".inf"), YamlValue::Float(b) if b == f64::INFINITY.to_bits()));
    assert!(matches!(scalar("-.Inf"), YamlValue::Float(b) if b == f64::NEG_INFINITY.to_bits()));
    assert!(matches!(scalar(".NaN"), YamlValue::Float(b) if f64::from_bits(b).is_nan()));
}

#[test]
fn test_load_explicit_tags() {
    assert_eq!(scalar("!!str 12").as_str(), Some("12"));
    assert_eq!(scalar("!!int \"12\"").as_i64(), Some(12));
    assert_eq!(scalar("!!int abc").as_str(), Some("abc"));
    assert_eq!(scalar("!!bool yes").as_bool(), Some(true));
    assert!(matches!(scalar("!!null x"), YamlValue::Null));
}

#[test]
fn test_load_anchors_and_aliases() {
    let v = load_str("a: &x 1\nb: *x\nc: &l [1, 2]\nd: *l\n");
    let m = v.as_mapping().expect("mapping");
    assert_eq!(m.get("b").and_then(|v| v.as_i64()), Some(1));
    let d = m.get("d").and_then(|v| v.as_sequence()).expect("sequence");
    assert_eq!(d.len(), 2);
    assert_eq!(d[1].as_i64(), Some(2));
}

#[test]
fn test_load_undefined_alias() {
    let e = load("a: *y\n", &read_double).err().expect("error");
    assert_eq!(e.problem, "found undefined alias \"y\"");
    let mark = e.problem_mark.expect("mark");
    assert_eq!((mark.line, mark.column), (0, 3));
}

#[test]
fn test_load_anchors_do_not_cross_documents() {
    let e = load("--- &a 1\n...\n--- *a\n", &read_double).err().expect("error");
    assert_eq!(e.problem, "found undefined alias \"a\"");
}

#[test]
fn test_load_several_documents_is_an_error() {
    let e = load("a\n---\nb\n", &read_double).err().expect("error");
    assert_eq!(e.problem, "expected a single document in the stream");
    assert!(e.problem_mark.is_none());
}

#[test]
fn test_load_syntax_error() {
    let e = load("a: [1, 2\n", &read_double).err().expect("error");
    assert!(e.problem_mark.is_some());
}

#[test]
fn test_load_repeated_key_keeps_place() {
    let v = load_str("a: 1\nb: 2\na: 3\n");
    let m = v.as_mapping().expect("mapping");
    let entries = m.iter();
    assert_eq!(entries.len(), 2);
    assert_eq!(entries[0].0.as_str(), Some("a"));
    assert_eq!(entries[0].1.as_i64(), Some(3));
    assert_eq!(entries[1].0.as_str(), Some("b"));
}

#[test]
fn test_construct_int_forms() {
    assert_eq!(construct_int("0o17"), Some(15));
    assert_eq!(construct_int("-0x10"), Some(-16));
    assert_eq!(construct_int("1:30"), Some(90));
    assert_eq!(construct_int("9223372036854775807"), Some(i64::MAX));
    assert_eq!(construct_int("-9223372036854775807"), Some(-i64::MAX));
    assert_eq!(construct_int("-9223372036854775808"), None);
    assert_eq!(construct_int("9223372036854775808"), None);
    assert_eq!(construct_int("0b2"), None);
    assert_eq!(construct_int("08"), None);
    assert_eq!(construct_int(""), None);
    assert_eq!(construct_int("-"), None);
    assert_eq!(construct_int("abc"), None);
}

#[test]
fn test_parse_i64_radix() {
    assert_eq!(parse_i64_radix(&chars("ff"), 16), Some(255));
    assert_eq!(parse_i64_radix(&chars("FF"), 16), Some(255));
    assert_eq!(parse_i64_radix(&chars("-101"), 2), Some(-5));
    assert_eq!(parse_i64_radix(&chars("+9"), 10), Some(9));
    assert_eq!(parse_i64_radix(&chars("9"), 8), None);
    assert_eq!(parse_i64_radix(&chars("+"), 10), None);
    assert_eq!(parse_i64_radix(&chars("1 "), 10), None);
}

#[test]
fn test_split_char() {
    let parts = split_char(&chars("a::b"), ':');
    assert_eq!(parts, vec![chars("a"), chars(""), chars("b")]);
    assert_eq!(split_char(&chars(""), ':'), vec![chars("")]);
}

#[test]
fn test_construct_bool_and_float() {
    assert!(construct_bool("On"));
    assert!(!construct_bool("oN"));
    assert_eq!(construct_float("1_0.5"), Err("10.5".to_string()));
    assert_eq!(construct_float("+.INF"), Ok(Some(f64::INFINITY.to_bits())));
    assert_eq!(construct_float("1:30.0"), Ok(None));
}

#[test]
fn test_mapping_insert_and_lookup() {
    let mut m = YamlMapping::new();
    assert!(m.is_empty());
    m.insert(YamlValue::Str("k".to_string()), YamlValue::Int(1));
    m.insert(YamlValue::Int(2), YamlValue::Bool(true));
    m.insert(YamlValue::Str("k".to_string()), YamlValue::Int(5));
    assert!(!m.is_empty());
    assert_eq!(m.iter().len(), 2);
    assert_eq!(m.get("k").and_then(|v| v.as_i64()), Some(5));
    assert!(m.get("2").is_none());
}

#[test]
fn test_values_equal_and_copy() {
    let v = load_str("a: [1, 2.5, x]\nb: {c: null}\n");
    let c = copy_value(&v);
    assert!(values_equal(&v, &c));
    let nan = YamlValue::Float(f64::NAN.to_bits());
    assert!(!values_equal(&nan, &copy_value(&nan)));
    let zero = YamlValue::Float(0.0f64.to_bits());
    let neg_zero = YamlValue::Float((-0.0f64).to_bits());
    assert!(values_equal(&zero, &neg_zero));
    assert!(!values_equal(&YamlValue::Int(1), &YamlValue::Str("1".to_string())));
}
