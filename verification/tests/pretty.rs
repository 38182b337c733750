use yson::document::pretty::nests_within;
use yson::formatter::{to_string, to_vec, PrettyFormatter};
use yson::{MapType, Node, Value};

fn plain(value: Value) -> Node {
    Node {
        attributes: None,
        value,
    }
}

fn pretty(node: &Node) -> String {
    let mut formatter = PrettyFormatter::new();
    to_string(&mut formatter, node).unwrap()
}

#[test]
fn pretty_scalars_are_as_compact_ones() {
    assert_eq!(pretty(&plain(Value::Null)), "#");
    assert_eq!(pretty(&plain(Value::Bool(true))), "%true");
    assert_eq!(pretty(&plain(Value::Int64(-5))), "-5");
    assert_eq!(pretty(&plain(Value::Uint64(5))), "5u");
    assert_eq!(pretty(&plain(Value::Double("0.5".to_string()))), "0.5");
    assert_eq!(pretty(&plain(Value::String("s".to_string()))), "\"s\"");
}

#[test]
fn pretty_empty_blocks_are_two_delimiters() {
    assert_eq!(pretty(&plain(Value::List(vec![]))), "[]");
    assert_eq!(pretty(&plain(Value::Mapping(MapType::new()))), "{}");
    let node = Node {
        attributes: Some(Box::new(plain(Value::Mapping(MapType::new())))),
        value: Value::Null,
    };
    assert_eq!(pretty(&node), "<> #");
}

#[test]
fn pretty_example_in_full() {
    let mut attr_map = MapType::new();
    attr_map.insert("key".to_string(), plain(Value::String("value".to_string())));
    let node = Node {
        attributes: Some(Box::new(plain(Value::Mapping(attr_map)))),
        value: Value::List(vec![
            plain(Value::Int64(42)),
            plain(Value::Bool(true)),
            plain(Value::Null),
        ]),
    };
    assert_eq!(
        pretty(&node),
        "<\n  \"key\" = \"value\"\n> [\n  42;\n  %true;\n  #\n]"
    );
}

#[test]
fn pretty_list_lines() {
    let node = plain(Value::List(vec![plain(Value::Int64(1)), plain(Value::Int64(2))]));
    assert_eq!(pretty(&node), "[\n  1;\n  2\n]");
}

#[test]
fn pretty_map_pads_the_equals_sign() {
    let mut map = MapType::new();
    map.insert("a".to_string(), plain(Value::Int64(1)));
    map.insert("b".to_string(), plain(Value::Int64(2)));
    assert_eq!(
        pretty(&plain(Value::Mapping(map))),
        "{\n  \"a\" = 1;\n  \"b\" = 2\n}"
    );
}

#[test]
fn pretty_depth_counts_the_enclosing_blocks() {
    let mut map = MapType::new();
    map.insert(
        "k".to_string(),
        plain(Value::List(vec![plain(Value::Null), plain(Value::List(vec![]))])),
    );
    let node = plain(Value::List(vec![
        plain(Value::List(vec![plain(Value::List(vec![plain(Value::Int64(1))]))])),
        plain(Value::Mapping(map)),
    ]));
    let expected = "[\n\
                    \x20\x20[\n\
                    \x20\x20\x20\x20[\n\
                    \x20\x20\x20\x20\x20\x201\n\
                    \x20\x20\x20\x20]\n\
                    \x20\x20];\n\
                    \x20\x20{\n\
                    \x20\x20\x20\x20\"k\" = [\n\
                    \x20\x20\x20\x20\x20\x20#;\n\
                    \x20\x20\x20\x20\x20\x20[]\n\
                    \x20\x20\x20\x20]\n\
                    \x20\x20}\n\
                    ]";
    assert_eq!(pretty(&node), expected);
}

#[test]
fn pretty_lines_are_indented_by_depth_times_unit() {
    let unit = b"\t--";
    let node = plain(Value::List(vec![plain(Value::List(vec![plain(Value::Null)]))]));
    let mut formatter = PrettyFormatter::with_indent(unit);
    let text = to_string(&mut formatter, &node).unwrap();
    assert_eq!(text, "[\n\t--[\n\t--\t--#\n\t--]\n]");
}

#[test]
fn pretty_with_an_empty_unit() {
    let node = plain(Value::List(vec![plain(Value::Int64(1)), plain(Value::Int64(2))]));
    let mut formatter = PrettyFormatter::with_indent(b"");
    assert_eq!(to_string(&mut formatter, &node).unwrap(), "[\n1;\n2\n]");
}

#[test]
fn pretty_attributes_inside_a_list() {
    let mut attrs = MapType::new();
    attrs.insert("a".to_string(), plain(Value::Int64(1)));
    let child = Node {
        attributes: Some(Box::new(plain(Value::Mapping(attrs)))),
        value: Value::Null,
    };
    let node = plain(Value::List(vec![child]));
    assert_eq!(pretty(&node), "[\n  <\n    \"a\" = 1\n  > #\n]");
}

#[test]
fn pretty_attributes_that_are_no_map_are_passed_over() {
    let with = Node {
        attributes: Some(Box::new(plain(Value::List(vec![plain(Value::Null)])))),
        value: Value::List(vec![plain(Value::Int64(1))]),
    };
    let without = plain(Value::List(vec![plain(Value::Int64(1))]));
    assert_eq!(pretty(&with), pretty(&without));
}

#[test]
fn pretty_formatter_is_back_at_its_depth() {
    let node = plain(Value::List(vec![plain(Value::List(vec![plain(Value::Null)]))]));
    let mut formatter = PrettyFormatter::new();
    let first = to_vec(&mut formatter, &node).unwrap();
    assert_eq!(formatter.current_indent, 0);
    assert!(formatter.has_value);
    let second = to_vec(&mut formatter, &node).unwrap();
    assert_eq!(first, second);
}

#[test]
fn pretty_default_is_two_spaces() {
    let formatter = PrettyFormatter::default();
    assert_eq!(formatter.indent, b"  ");
    assert_eq!(formatter.current_indent, 0);
    assert!(!formatter.has_value);
    let made = PrettyFormatter::new();
    assert_eq!(made.indent, b"  ");
    let custom = PrettyFormatter::with_indent(b"    ");
    assert_eq!(custom.indent, b"    ");
    assert_eq!(custom.current_indent, 0);
    assert!(!custom.has_value);
}

#[test]
fn nesting_is_measured_in_blocks() {
    let scalar = plain(Value::Int64(1));
    assert!(nests_within(&scalar, 0));

    let flat = plain(Value::List(vec![plain(Value::Null), plain(Value::Null)]));
    assert!(!nests_within(&flat, 0));
    assert!(nests_within(&flat, 1));

    let mut map = MapType::new();
    map.insert("k".to_string(), plain(Value::List(vec![plain(Value::List(vec![]))])));
    let deep = plain(Value::List(vec![plain(Value::Null), plain(Value::Mapping(map))]));
    assert!(!nests_within(&deep, 3));
    assert!(nests_within(&deep, 4));
    assert!(nests_within(&deep, usize::MAX));

    let mut attrs = MapType::new();
    attrs.insert("a".to_string(), plain(Value::List(vec![])));
    let with_block = Node {
        attributes: Some(Box::new(plain(Value::Mapping(attrs)))),
        value: Value::Null,
    };
    assert!(!nests_within(&with_block, 1));
    assert!(nests_within(&with_block, 2));

    let passed_over = Node {
        attributes: Some(Box::new(plain(Value::List(vec![plain(Value::List(vec![]))])))),
        value: Value::Null,
    };
    assert!(nests_within(&passed_over, 0));
}

#[test]
fn a_pretty_formatter_takes_what_its_counter_can_count() {
    let scalar = plain(Value::Null);
    let flat = plain(Value::List(vec![plain(Value::Null)]));
    let deep = plain(Value::List(vec![plain(Value::List(vec![]))]));

    let fresh = PrettyFormatter::new();
    assert!(fresh.takes(&scalar));
    assert!(fresh.takes(&flat));
    assert!(fresh.takes(&deep));

    let mut nearly = PrettyFormatter::new();
    nearly.current_indent = usize::MAX - 1;
    assert!(nearly.takes(&scalar));
    assert!(nearly.takes(&flat));
    assert!(!nearly.takes(&deep));

    let mut full = PrettyFormatter::new();
    full.current_indent = usize::MAX;
    assert!(full.takes(&scalar));
    assert!(!full.takes(&flat));
}
