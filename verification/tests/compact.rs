use yson::formatter::{to_string, to_vec, to_writer, TextFormatter};
use yson::{MapType, Node, Value};

fn plain(value: Value) -> Node {
    Node {
        attributes: None,
        value,
    }
}

fn compact(node: &Node) -> String {
    let mut formatter = TextFormatter;
    to_string(&mut formatter, node).unwrap()
}

#[test]
fn null_is_the_hash_mark() {
    assert_eq!(compact(&plain(Value::Null)), "#");
}

#[test]
fn booleans_are_percent_words() {
    assert_eq!(compact(&plain(Value::Bool(true))), "%true");
    assert_eq!(compact(&plain(Value::Bool(false))), "%false");
}

#[test]
fn signed_integers_have_no_suffix() {
    assert_eq!(compact(&plain(Value::Int64(0))), "0");
    assert_eq!(compact(&plain(Value::Int64(42))), "42");
    assert_eq!(compact(&plain(Value::Int64(-1))), "-1");
    assert_eq!(compact(&plain(Value::Int64(-907))), "-907");
    assert_eq!(
        compact(&plain(Value::Int64(i64::MAX))),
        "9223372036854775807"
    );
    assert_eq!(
        compact(&plain(Value::Int64(i64::MIN))),
        "-9223372036854775808"
    );
}

#[test]
fn unsigned_integers_end_in_u() {
    assert_eq!(compact(&plain(Value::Uint64(0))), "0u");
    assert_eq!(compact(&plain(Value::Uint64(42))), "42u");
    assert_eq!(compact(&plain(Value::Uint64(100))), "100u");
    assert_eq!(
        compact(&plain(Value::Uint64(u64::MAX))),
        "18446744073709551615u"
    );
}

#[test]
fn integers_agree_with_the_standard_formatting() {
    for i in [-1000i64, -10, -9, 9, 10, 11, 99, 100, 101, 123456789] {
        assert_eq!(compact(&plain(Value::Int64(i))), format!("{}", i));
    }
    for u in [1u64, 9, 10, 19, 20, 1000, 987654321] {
        assert_eq!(compact(&plain(Value::Uint64(u))), format!("{}u", u));
    }
}

#[test]
fn doubles_are_written_as_given() {
    assert_eq!(compact(&plain(Value::Double(format!("{}", 1.5f64)))), "1.5");
    assert_eq!(compact(&plain(Value::Double(format!("{}", -0.25f64)))), "-0.25");
    assert_eq!(compact(&plain(Value::Double(format!("{}", 1e300f64)))), format!("{}", 1e300f64));
    assert_eq!(compact(&plain(Value::Double("1e-7".to_string()))), "1e-7");
}

#[test]
fn strings_are_quoted_and_not_escaped() {
    assert_eq!(compact(&plain(Value::String("value".to_string()))), "\"value\"");
    assert_eq!(compact(&plain(Value::String(String::new()))), "\"\"");
    assert_eq!(
        compact(&plain(Value::String("a\"b;c=d\n".to_string()))),
        "\"a\"b;c=d\n\""
    );
}

#[test]
fn strings_keep_their_utf8() {
    let text = "ключ → значение";
    let rendered = compact(&plain(Value::String(text.to_string())));
    assert_eq!(rendered, format!("\"{}\"", text));
    let mut formatter = TextFormatter;
    let bytes = to_vec(&mut formatter, &plain(Value::String(text.to_string()))).unwrap();
    assert_eq!(bytes, rendered.as_bytes());
}

#[test]
fn empty_list_and_map() {
    assert_eq!(compact(&plain(Value::List(vec![]))), "[]");
    assert_eq!(compact(&plain(Value::Mapping(MapType::new()))), "{}");
}

#[test]
fn a_list_of_one_has_no_separator() {
    assert_eq!(compact(&plain(Value::List(vec![plain(Value::Int64(7))]))), "[7]");
}

#[test]
fn a_list_of_n_has_n_minus_one_separators() {
    for n in 0usize..6 {
        let items: Vec<Node> = (0..n).map(|i| plain(Value::Uint64(i as u64))).collect();
        let text = compact(&plain(Value::List(items)));
        let separators = text.bytes().filter(|b| *b == b';').count();
        assert_eq!(separators, if n == 0 { 0 } else { n - 1 });
    }
    assert_eq!(
        compact(&plain(Value::List(vec![
            plain(Value::Uint64(0)),
            plain(Value::Uint64(1)),
            plain(Value::Uint64(2)),
        ]))),
        "[0u;1u;2u]"
    );
}

#[test]
fn list_order_is_kept() {
    let node = plain(Value::List(vec![
        plain(Value::Int64(3)),
        plain(Value::Int64(1)),
        plain(Value::Int64(2)),
    ]));
    assert_eq!(compact(&node), "[3;1;2]");
}

#[test]
fn a_map_has_one_equals_sign_per_entry() {
    let mut map = MapType::new();
    map.insert("b".to_string(), plain(Value::Int64(1)));
    map.insert("a".to_string(), plain(Value::Bool(false)));
    map.insert("c".to_string(), plain(Value::Null));
    let text = compact(&plain(Value::Mapping(map)));
    assert_eq!(text, "{\"b\"=1;\"a\"=%false;\"c\"=#}");
    assert_eq!(text.bytes().filter(|b| *b == b'=').count(), 3);
    assert_eq!(text.bytes().filter(|b| *b == b';').count(), 2);
    assert!(text.ends_with("#}"));
}

#[test]
fn a_map_of_one_entry() {
    let mut map = MapType::new();
    map.insert("only".to_string(), plain(Value::Uint64(5)));
    assert_eq!(compact(&plain(Value::Mapping(map))), "{\"only\"=5u}");
}

#[test]
fn nested_containers() {
    let mut inner = MapType::new();
    inner.insert("k".to_string(), plain(Value::List(vec![])));
    let node = plain(Value::List(vec![
        plain(Value::List(vec![plain(Value::Null), plain(Value::Null)])),
        plain(Value::Mapping(inner)),
    ]));
    assert_eq!(compact(&node), "[[#;#];{\"k\"=[]}]");
}

#[test]
fn attributes_stand_right_before_the_value() {
    let mut attrs = MapType::new();
    attrs.insert("a".to_string(), plain(Value::Int64(1)));
    attrs.insert("b".to_string(), plain(Value::Int64(2)));
    let node = Node {
        attributes: Some(Box::new(plain(Value::Mapping(attrs)))),
        value: Value::String("x".to_string()),
    };
    assert_eq!(compact(&node), "<\"a\"=1;\"b\"=2>\"x\"");
}

#[test]
fn empty_attribute_block() {
    let node = Node {
        attributes: Some(Box::new(plain(Value::Mapping(MapType::new())))),
        value: Value::Null,
    };
    assert_eq!(compact(&node), "<>#");
}

#[test]
fn attributes_that_are_no_map_are_passed_over() {
    for attribute in [
        Value::Null,
        Value::Bool(true),
        Value::Int64(5),
        Value::Uint64(5),
        Value::Double("2.5".to_string()),
        Value::String("s".to_string()),
        Value::List(vec![plain(Value::Null)]),
    ] {
        let with = Node {
            attributes: Some(Box::new(plain(attribute))),
            value: Value::List(vec![plain(Value::Int64(1))]),
        };
        let without = plain(Value::List(vec![plain(Value::Int64(1))]));
        assert_eq!(compact(&with), compact(&without));
        assert_eq!(compact(&with), "[1]");
    }
}

#[test]
fn attributes_of_the_attribute_node_are_not_rendered() {
    let mut outer = MapType::new();
    outer.insert("o".to_string(), plain(Value::Null));
    let mut inner = MapType::new();
    inner.insert("i".to_string(), plain(Value::Null));
    let holder = Node {
        attributes: Some(Box::new(plain(Value::Mapping(outer)))),
        value: Value::Mapping(inner),
    };
    let node = Node {
        attributes: Some(Box::new(holder)),
        value: Value::Null,
    };
    assert_eq!(compact(&node), "<\"i\"=#>#");
}

#[test]
fn children_carry_their_own_attributes() {
    let mut attrs = MapType::new();
    attrs.insert("t".to_string(), plain(Value::Bool(true)));
    let child = Node {
        attributes: Some(Box::new(plain(Value::Mapping(attrs)))),
        value: Value::Int64(1),
    };
    let mut map = MapType::new();
    map.insert("c".to_string(), child);
    assert_eq!(compact(&plain(Value::Mapping(map))), "{\"c\"=<\"t\"=%true>1}");
}

#[test]
fn rendering_is_repeatable() {
    let mut map = MapType::new();
    map.insert("x".to_string(), plain(Value::Int64(1)));
    map.insert("y".to_string(), plain(Value::Int64(2)));
    map.insert("z".to_string(), plain(Value::Int64(3)));
    let node = plain(Value::Mapping(map));
    let first = compact(&node);
    for _ in 0..10 {
        assert_eq!(compact(&node), first);
    }
    assert_eq!(first, "{\"x\"=1;\"y\"=2;\"z\"=3}");
}

#[test]
fn the_three_entry_points_agree() {
    let node = plain(Value::List(vec![
        plain(Value::String("s".to_string())),
        plain(Value::Uint64(9)),
    ]));
    let mut formatter = TextFormatter;
    let text = to_string(&mut formatter, &node).unwrap();
    let bytes = to_vec(&mut formatter, &node).unwrap();
    let mut sink: Vec<u8> = vec![b'>'];
    to_writer(&mut sink, &mut formatter, &node).unwrap();
    assert_eq!(text, "[\"s\";9u]");
    assert_eq!(bytes, text.as_bytes());
    assert_eq!(sink, format!(">{}", text).as_bytes());
}

#[test]
fn map_insert_replaces_in_place() {
    let mut map = MapType::new();
    assert_eq!(map.len(), 0);
    assert!(map.insert("a".to_string(), plain(Value::Int64(1))).is_none());
    assert!(map.insert("b".to_string(), plain(Value::Int64(2))).is_none());
    assert_eq!(map.len(), 2);
    let previous = map.insert("a".to_string(), plain(Value::Int64(3)));
    assert_eq!(previous, Some(plain(Value::Int64(1))));
    assert_eq!(map.len(), 2);
    assert_eq!(compact(&plain(Value::Mapping(map))), "{\"a\"=3;\"b\"=2}");
}

#[test]
fn a_clone_holds_the_same_tree() {
    let mut attrs = MapType::new();
    attrs.insert("a".to_string(), plain(Value::Double("1.5".to_string())));
    let mut map = MapType::new();
    map.insert("k".to_string(), plain(Value::List(vec![plain(Value::Null)])));
    map.insert("l".to_string(), plain(Value::String("s".to_string())));
    let node = Node {
        attributes: Some(Box::new(plain(Value::Mapping(attrs)))),
        value: Value::List(vec![
            plain(Value::Mapping(map)),
            plain(Value::Int64(-3)),
            plain(Value::Uint64(3)),
            plain(Value::Bool(false)),
        ]),
    };
    let copy = node.clone();
    assert_eq!(copy, node);
    assert_eq!(compact(&copy), compact(&node));
    assert_eq!(compact(&copy), "<\"a\"=1.5>[{\"k\"=[#];\"l\"=\"s\"};-3;3u;%false]");
    let value = node.value.clone();
    assert_eq!(value, node.value);
    let mut entries = MapType::new();
    entries.insert("x".to_string(), plain(Value::Null));
    let same = entries.clone();
    assert_eq!(same, entries);
    assert_eq!(same.len(), 1);
}
