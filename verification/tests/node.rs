use yson::formatter::{to_string, PrettyFormatter, TextFormatter};
use yson::{MapType, Node, Value};

fn sample() -> Node {
    let mut attr_map = MapType::new();
    attr_map.insert(
        "key".to_string(),
        Node {
            value: Value::String("value".to_string()),
            attributes: None,
        },
    );

    let attributes = Some(Box::new(Node {
        value: Value::Mapping(attr_map),
        attributes: None,
    }));

    Node {
        attributes,
        value: Value::List(vec![
            Node {
                value: Value::Int64(42),
                attributes: None,
            },
            Node {
                value: Value::Bool(true),
                attributes: None,
            },
            Node {
                value: Value::Null,
                attributes: None,
            },
        ]),
    }
}

#[test]
fn test_node_serialize() {
    let node = sample();

    let mut formatter = TextFormatter;
    let s = to_string(&mut formatter, &node).unwrap();
    assert_eq!(s, r#"<"key"="value">[42;%true;#]"#);
}

#[test]
fn test_node_serialize_pretty() {
    let node = sample();

    let mut formatter = PrettyFormatter::new();
    let s = to_string(&mut formatter, &node).unwrap();
    assert_eq!(
        s.trim(),
        r#"
<
  "key" = "value"
> [
  42;
  %true;
  #
]"#
        .trim()
    );
}
