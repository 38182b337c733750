use yson::formatter::{to_writer, Formatter, PrettyFormatter, TextFormatter};
use yson::sink::{Recorder, Write};
use yson::{MapType, Node, Value};

/// A sink that takes `room` bytes and then fails.
struct Limited {
    taken: Vec<u8>,
    room: usize,
}

fn limited(taken: &[u8], room: usize) -> Recorder<Limited> {
    Recorder::new(Limited {
        taken: taken.to_vec(),
        room,
    })
}

#[derive(Debug, PartialEq)]
struct Full {
    missing: usize,
}

impl Write for Limited {
    type Error = Full;

    fn write_all(&mut self, bytes: &[u8]) -> Result<(), Full> {
        let free = self.room - self.taken.len();
        if bytes.len() <= free {
            self.taken.extend_from_slice(bytes);
            Ok(())
        } else {
            self.taken.extend_from_slice(&bytes[..free]);
            Err(Full {
                missing: bytes.len() - free,
            })
        }
    }
}

fn plain(value: Value) -> Node {
    Node {
        attributes: None,
        value,
    }
}

fn sample() -> Node {
    let mut attrs = MapType::new();
    attrs.insert("key".to_string(), plain(Value::String("value".to_string())));
    Node {
        attributes: Some(Box::new(plain(Value::Mapping(attrs)))),
        value: Value::List(vec![
            plain(Value::Int64(42)),
            plain(Value::Bool(true)),
            plain(Value::Null),
        ]),
    }
}

#[test]
fn a_sink_with_room_takes_the_whole_document() {
    let mut sink = limited(b"", 100);
    let mut formatter = TextFormatter;
    assert_eq!(to_writer(&mut sink, &mut formatter, &sample()), Ok(()));
    assert_eq!(sink.into_inner().taken, b"<\"key\"=\"value\">[42;%true;#]");
}

#[test]
fn a_failing_sink_is_left_with_a_truncated_document() {
    let whole = b"<\"key\"=\"value\">[42;%true;#]";
    for room in 0..whole.len() {
        let mut sink = limited(b"", room);
        let mut formatter = TextFormatter;
        let result = to_writer(&mut sink, &mut formatter, &sample());
        assert!(result.is_err());
        assert_eq!(sink.into_inner().taken, &whole[..room]);
    }
}

#[test]
fn the_error_of_the_sink_comes_out_unchanged() {
    let mut sink = limited(b"", 3);
    let mut formatter = TextFormatter;
    let node = plain(Value::String("abcdef".to_string()));
    assert_eq!(
        to_writer(&mut sink, &mut formatter, &node),
        Err(Full { missing: 4 })
    );
    assert_eq!(sink.into_inner().taken, b"\"ab");
}

#[test]
fn bytes_already_in_the_sink_stay() {
    let mut sink = limited(b"head:", 7);
    let mut formatter = TextFormatter;
    let node = plain(Value::List(vec![plain(Value::Int64(1)), plain(Value::Int64(2))]));
    assert!(to_writer(&mut sink, &mut formatter, &node).is_err());
    assert_eq!(sink.into_inner().taken, b"head:[1");
}

#[test]
fn a_pretty_formatter_has_counted_before_a_failed_write() {
    let mut sink = limited(b"", 0);
    let mut formatter = PrettyFormatter::new();
    assert!(formatter.begin_list(&mut sink).is_err());
    assert_eq!(formatter.current_indent, 1);
    assert!(sink.into_inner().taken.is_empty());
}

#[test]
fn a_pretty_document_is_truncated_as_well() {
    let whole = b"[\n  1;\n  2\n]";
    let node = plain(Value::List(vec![plain(Value::Int64(1)), plain(Value::Int64(2))]));
    for room in 0..whole.len() {
        let mut sink = limited(b"", room);
        let mut formatter = PrettyFormatter::new();
        assert!(to_writer(&mut sink, &mut formatter, &node).is_err());
        assert_eq!(sink.into_inner().taken, &whole[..room]);
    }
}

#[test]
fn the_end_of_a_key_writes_nothing_and_cannot_fail() {
    let mut sink = limited(b"", 0);
    let mut formatter = PrettyFormatter::new();
    formatter.current_indent = 3;
    formatter.has_value = true;
    assert_eq!(formatter.end_map_key(&mut sink), Ok(()));
    assert_eq!(formatter.current_indent, 3);
    assert!(formatter.has_value);
    let mut compact = TextFormatter;
    assert_eq!(compact.end_map_key(&mut sink), Ok(()));
    assert!(sink.into_inner().taken.is_empty());
}
