//! The driver: walks a node and hands its events to a formatter, in the one
//! order that is right for the node's shape.
//!
//! The spec functions of this file say, for each part of a node, which run of
//! events it is. The writing functions perform these runs. Their proofs keep
//! in a ghost variable the run performed so far, so that a write that fails
//! is known to leave the sink within the text of the whole run.

use vstd::prelude::*;
use vstd::utf8::{encode_utf8, valid_utf8};
use crate::formatter::{lemma_event_within, lemma_run_within, performed, Event, Formatter, Run};
use crate::sink::Sink;
use crate::{entries_view, items_view, lemma_node_view, Node, NodeView, Value, ValueView};

verus! {

/// A string: the opening event, the whole text as one fragment, the closing
/// event.
pub open spec fn string_run<F: Formatter>(f: F, text: Seq<char>) -> Run<F> {
    Run::idle(f).emit(Event::BeginString).emit(Event::StringFragment(text)).emit(Event::EndString)
}

/// A key, up to the point where its value starts.
pub open spec fn key_run<F: Formatter>(f: F, key: Seq<char>, first: bool) -> Run<F> {
    Run::idle(f).emit(Event::BeginMapKey(first)).emit(Event::BeginString).emit(
        Event::StringFragment(key),
    ).emit(Event::EndString).emit(Event::EndMapKey).emit(Event::BeginMapValue)
}

/// A node: its attribute block where it has one, then its value.
pub open spec fn node_run<F: Formatter>(f: F, node: NodeView) -> Run<F>
    decreases node, 0nat,
{
    let attributes = attributes_run(f, node.attributes);
    attributes.followed_by(value_run(attributes.state, node.value))
}

/// The attribute block of a node. Only attributes whose own value is a map
/// make a block; anything else is passed over.
pub open spec fn attributes_run<F: Formatter>(f: F, attributes: Option<Box<NodeView>>) -> Run<F>
    decreases attributes, 0nat,
{
    match attributes {
        Some(holder) => match holder.value {
            ValueView::Mapping(entries) => {
                let opened = Run::idle(f).emit(Event::BeginAttributes);
                opened.followed_by(entries_run(opened.state, entries, 0)).emit(
                    Event::EndAttributes,
                )
            },
            _ => Run::idle(f),
        },
        None => Run::idle(f),
    }
}

/// A value: one event for a scalar, a string as [`string_run`] has it, a list
/// or a map as its opening event, its elements or entries, its closing event.
pub open spec fn value_run<F: Formatter>(f: F, value: ValueView) -> Run<F>
    decreases value, 0nat,
{
    match value {
        ValueView::Null => Run::idle(f).emit(Event::Null),
        ValueView::Bool(b) => Run::idle(f).emit(Event::Bool(b)),
        ValueView::Int64(i) => Run::idle(f).emit(Event::Signed(i as int)),
        ValueView::Uint64(u) => Run::idle(f).emit(Event::Unsigned(u as nat)),
        ValueView::Double(text) => Run::idle(f).emit(Event::NumberStr(text)),
        ValueView::String(text) => string_run(f, text),
        ValueView::List(items) => {
            let opened = Run::idle(f).emit(Event::BeginList);
            opened.followed_by(items_run(opened.state, items, 0)).emit(Event::EndList)
        },
        ValueView::Mapping(entries) => {
            let opened = Run::idle(f).emit(Event::BeginMap);
            opened.followed_by(entries_run(opened.state, entries, 0)).emit(Event::EndMap)
        },
    }
}

/// One element of a list, between its two events.
pub open spec fn item_run<F: Formatter>(f: F, item: NodeView, first: bool) -> Run<F>
    decreases item, 1nat,
{
    let opened = Run::idle(f).emit(Event::BeginListValue(first));
    opened.followed_by(node_run(opened.state, item)).emit(Event::EndListValue)
}

/// The elements of a list from index `from` on, in order.
pub open spec fn items_run<F: Formatter>(f: F, items: Seq<NodeView>, from: int) -> Run<F>
    decreases items, items.len() - from,
{
    if 0 <= from < items.len() {
        let one = item_run(f, items[from], from == 0);
        one.followed_by(items_run(one.state, items, from + 1))
    } else {
        Run::idle(f)
    }
}

/// One entry: its key as a string, then its value between its two events.
pub open spec fn entry_run<F: Formatter>(
    f: F,
    key: Seq<char>,
    child: NodeView,
    first: bool,
) -> Run<F>
    decreases child, 1nat,
{
    let opened = key_run(f, key, first);
    opened.followed_by(node_run(opened.state, child)).emit(Event::EndMapValue)
}

/// The entries of a map or an attribute block from index `from` on, in order.
pub open spec fn entries_run<F: Formatter>(
    f: F,
    entries: Seq<(Seq<char>, NodeView)>,
    from: int,
) -> Run<F>
    decreases entries, entries.len() - from,
{
    if 0 <= from < entries.len() {
        let one = entry_run(f, entries[from].0, entries[from].1, from == 0);
        one.followed_by(entries_run(one.state, entries, from + 1))
    } else {
        Run::idle(f)
    }
}

/// Writes a key as a string, and what stands between it and its value.
fn write_key<W: Sink, F: Formatter>(
    writer: &mut W,
    formatter: &mut F,
    key: &str,
    first: bool,
) -> (r: Result<(), W::Error>)
    requires
        key_run(*old(formatter), key@, first).accepted,
    ensures
        performed(
            key_run(*old(formatter), key@, first),
            *final(formatter),
            *old(writer),
            *final(writer),
            r,
        ),
{
    let ghost start = *formatter;
    let ghost before = writer.written();
    let ghost whole = key_run(start, key@, first);
    let ghost e1 = Run::idle(start).emit(Event::BeginMapKey(first));
    let ghost e2 = e1.emit(Event::BeginString);
    let ghost e3 = e2.emit(Event::StringFragment(key@));
    let ghost e4 = e3.emit(Event::EndString);
    let ghost e5 = e4.emit(Event::EndMapKey);
    proof {
        lemma_event_within(before, Run::idle(start), Event::BeginMapKey(first), whole);
        lemma_event_within(before, e1, Event::BeginString, whole);
        lemma_event_within(before, e2, Event::StringFragment(key@), whole);
        lemma_event_within(before, e3, Event::EndString, whole);
        lemma_event_within(before, e4, Event::EndMapKey, whole);
        lemma_event_within(before, e5, Event::BeginMapValue, whole);
    }
    assert(writer.written() == before + Seq::<u8>::empty());
    formatter.begin_map_key(writer, first)?;
    assert(writer.written() == before + e1.text);
    formatter.begin_string(writer)?;
    assert(writer.written() == before + e2.text);
    formatter.write_string_fragment(writer, key)?;
    assert(writer.written() == before + e3.text);
    formatter.end_string(writer)?;
    assert(writer.written() == before + e4.text);
    formatter.end_map_key(writer)?;
    assert(writer.written() == before + e5.text);
    formatter.begin_map_value(writer)
}

/// Writes the entries of a map or of an attribute block, in order.
fn write_entries<W: Sink, F: Formatter>(
    writer: &mut W,
    formatter: &mut F,
    entries: &Vec<(String, Node)>,
) -> (r: Result<(), W::Error>)
    requires
        entries_run(*old(formatter), entries_view(entries@), 0).accepted,
    ensures
        performed(
            entries_run(*old(formatter), entries_view(entries@), 0),
            *final(formatter),
            *old(writer),
            *final(writer),
            r,
        ),
    decreases entries@, 0nat,
{
    let ghost start = *formatter;
    let ghost before = writer.written();
    let ghost views = entries_view(entries@);
    let ghost whole = entries_run(start, views, 0);
    let ghost mut done = Run::idle(start);
    let mut first = true;
    let mut i: usize = 0;
    while i < entries.len()
        invariant
            i <= entries.len(),
            first == (i == 0),
            start == *old(formatter),
            before == old(writer).written(),
            views == entries_view(entries@),
            whole == entries_run(start, views, 0),
            whole.accepted,
            *formatter == done.state,
            writer.written() == before + done.text,
            done.followed_by(entries_run(done.state, views, i as int)) == whole,
        decreases entries.len() - i,
    {
        let key = &entries[i].0;
        let child = &entries[i].1;
        let ghost opened = key_run(done.state, key@, first);
        let ghost e1 = done.followed_by(opened);
        let ghost sub = node_run(e1.state, child@);
        let ghost e2 = e1.followed_by(sub);
        let ghost e3 = e2.emit(Event::EndMapValue);
        proof {
            assert(views[i as int] == (key@, child@));
            let one = entry_run(done.state, key@, child@, first);
            let tail = entries_run(one.state, views, i + 1);
            assert(e3.text =~= done.text + one.text);
            assert(e3.followed_by(tail).text =~= whole.text);
            lemma_run_within(before, done, opened, whole);
            lemma_run_within(before, e1, sub, whole);
            lemma_event_within(before, e2, Event::EndMapValue, whole);
        }
        write_key(writer, formatter, key.as_str(), first)?;
        assert(writer.written() == before + e1.text);
        write_node(writer, formatter, child)?;
        assert(writer.written() == before + e2.text);
        formatter.end_map_value(writer)?;
        assert(writer.written() == before + e3.text);
        first = false;
        i += 1;
        proof {
            done = e3;
        }
    }
    Ok(())
}

/// Writes a node: its attribute block where it has one, then its value.
pub fn write_node<W: Sink, F: Formatter>(writer: &mut W, formatter: &mut F, node: &Node) -> (r:
    Result<(), W::Error>)
    requires
        node_run(*old(formatter), node@).accepted,
    ensures
        performed(
            node_run(*old(formatter), node@),
            *final(formatter),
            *old(writer),
            *final(writer),
            r,
        ),
    decreases node, 0nat,
{
    let ghost start = *formatter;
    let ghost before = writer.written();
    let ghost whole = node_run(start, node@);
    let ghost attributes = attributes_run(start, node@.attributes);
    proof {
        lemma_node_view(*node);
        if let Some(holder) = &node.attributes {
            lemma_node_view(**holder);
        }
    }
    if let Some(holder) = &node.attributes {
        if let Value::Mapping(map) = &holder.value {
            let ghost opened = Run::idle(start).emit(Event::BeginAttributes);
            let ghost sub = entries_run(opened.state, map@, 0);
            let ghost filled = opened.followed_by(sub);
            proof {
                lemma_event_within(before, Run::idle(start), Event::BeginAttributes, whole);
                lemma_run_within(before, opened, sub, whole);
                lemma_event_within(before, filled, Event::EndAttributes, whole);
            }
            assert(writer.written() == before + Seq::<u8>::empty());
            formatter.begin_attributes(writer)?;
            assert(writer.written() == before + opened.text);
            write_entries(writer, formatter, &map.entries)?;
            assert(writer.written() == before + filled.text);
            formatter.end_attributes(writer)?;
        }
    }
    assert(writer.written() == before + attributes.text);
    proof {
        lemma_run_within(before, attributes, value_run(attributes.state, node@.value), whole);
    }
    write_value(writer, formatter, &node.value)
}

/// Writes a value.
pub fn write_value<W: Sink, F: Formatter>(writer: &mut W, formatter: &mut F, value: &Value) -> (r:
    Result<(), W::Error>)
    requires
        value_run(*old(formatter), value@).accepted,
    ensures
        performed(
            value_run(*old(formatter), value@),
            *final(formatter),
            *old(writer),
            *final(writer),
            r,
        ),
    decreases value, 0nat,
{
    let ghost start = *formatter;
    let ghost before = writer.written();
    let ghost whole = value_run(start, value@);
    assert(writer.written() == before + Seq::<u8>::empty());
    match value {
        Value::Null => formatter.write_null(writer),
        Value::Bool(b) => formatter.write_bool(writer, *b),
        Value::Int64(i) => formatter.write_i64(writer, *i),
        Value::Uint64(u) => formatter.write_u64(writer, *u),
        Value::Double(text) => formatter.write_number_str(writer, text.as_str()),
        Value::String(text) => {
            let ghost e1 = Run::idle(start).emit(Event::BeginString);
            let ghost e2 = e1.emit(Event::StringFragment(text@));
            proof {
                lemma_event_within(before, Run::idle(start), Event::BeginString, whole);
                lemma_event_within(before, e1, Event::StringFragment(text@), whole);
                lemma_event_within(before, e2, Event::EndString, whole);
            }
            formatter.begin_string(writer)?;
            assert(writer.written() == before + e1.text);
            formatter.write_string_fragment(writer, text.as_str())?;
            assert(writer.written() == before + e2.text);
            formatter.end_string(writer)
        },
        Value::List(elements) => {
            let ghost opened = Run::idle(start).emit(Event::BeginList);
            let ghost views = items_view(elements@);
            proof {
                lemma_event_within(before, Run::idle(start), Event::BeginList, whole);
            }
            formatter.begin_list(writer)?;
            let ghost mut done = opened;
            let mut first = true;
            let mut i: usize = 0;
            while i < elements.len()
                invariant
                    i <= elements.len(),
                    first == (i == 0),
                    start == *old(formatter),
                    before == old(writer).written(),
                    *value == Value::List(*elements),
                    whole == value_run(start, value@),
                    views == items_view(elements@),
                    whole.accepted,
                    opened == Run::idle(start).emit(Event::BeginList),
                    *formatter == done.state,
                    writer.written() == before + done.text,
                    done.followed_by(items_run(done.state, views, i as int))
                        == opened.followed_by(items_run(opened.state, views, 0)),
                decreases elements.len() - i,
            {
                let ghost e1 = done.emit(Event::BeginListValue(first));
                let ghost sub = node_run(e1.state, elements@[i as int]@);
                let ghost e2 = e1.followed_by(sub);
                let ghost e3 = e2.emit(Event::EndListValue);
                proof {
                    assert(views[i as int] == elements@[i as int]@);
                    let one = item_run(done.state, views[i as int], first);
                    let tail = items_run(one.state, views, i + 1);
                    assert(e3.text =~= done.text + one.text);
                    assert(e3.followed_by(tail).text =~= done.followed_by(
                        items_run(done.state, views, i as int),
                    ).text);
                    lemma_event_within(before, done, Event::BeginListValue(first), whole);
                    lemma_run_within(before, e1, sub, whole);
                    lemma_event_within(before, e2, Event::EndListValue, whole);
                }
                formatter.begin_list_value(writer, first)?;
                assert(writer.written() == before + e1.text);
                write_node(writer, formatter, &elements[i])?;
                assert(writer.written() == before + e2.text);
                formatter.end_list_value(writer)?;
                assert(writer.written() == before + e3.text);
                first = false;
                i += 1;
                proof {
                    done = e3;
                }
            }
            proof {
                lemma_event_within(before, done, Event::EndList, whole);
            }
            formatter.end_list(writer)
        },
        Value::Mapping(map) => {
            let ghost opened = Run::idle(start).emit(Event::BeginMap);
            let ghost sub = entries_run(opened.state, map@, 0);
            let ghost filled = opened.followed_by(sub);
            proof {
                lemma_event_within(before, Run::idle(start), Event::BeginMap, whole);
                lemma_run_within(before, opened, sub, whole);
                lemma_event_within(before, filled, Event::EndMap, whole);
            }
            formatter.begin_map(writer)?;
            assert(writer.written() == before + opened.text);
            write_entries(writer, formatter, &map.entries)?;
            assert(writer.written() == before + filled.text);
            formatter.end_map(writer)
        },
    }
}

/// Renders `node` into `writer`.
pub fn to_writer<W: Sink, F: Formatter>(writer: &mut W, formatter: &mut F, node: &Node) -> (r:
    Result<(), W::Error>)
    requires
        node_run(*old(formatter), node@).accepted,
    ensures
        performed(
            node_run(*old(formatter), node@),
            *final(formatter),
            *old(writer),
            *final(writer),
            r,
        ),
{
    write_node(writer, formatter, node)
}

/// Renders `node` into a fresh byte buffer.
pub fn to_vec<F: Formatter>(formatter: &mut F, node: &Node) -> (r: Result<
    Vec<u8>,
    core::convert::Infallible,
>)
    requires
        node_run(*old(formatter), node@).accepted,
    ensures
        r matches Ok(bytes) && bytes@ == node_run(*old(formatter), node@).text,
        *final(formatter) == node_run(*old(formatter), node@).state,
{
    let mut buf: Vec<u8> = Vec::new();
    to_writer(&mut buf, formatter, node)?;
    Ok(buf)
}

/// Renders `node` into a fresh string.
///
/// The rendered bytes have to be valid UTF-8. With the formatters of this
/// library they are, as long as a pretty formatter's indentation is: every
/// other byte they emit is ASCII or comes from a string.
pub fn to_string<F: Formatter>(formatter: &mut F, node: &Node) -> (r: Result<
    String,
    core::convert::Infallible,
>)
    requires
        node_run(*old(formatter), node@).accepted,
        valid_utf8(node_run(*old(formatter), node@).text),
    ensures
        r matches Ok(text) && encode_utf8(text@) == node_run(*old(formatter), node@).text,
        *final(formatter) == node_run(*old(formatter), node@).state,
{
    let mut buf: Vec<u8> = Vec::new();
    to_writer(&mut buf, formatter, node)?;
    match string_from_utf8(buf) {
        Some(text) => Ok(text),
        None => unreached(),
    }
}

/// `String::from_utf8` of the standard library, with its error dropped. It
/// checks that `bytes` are valid UTF-8; where they are, the string it returns
/// holds exactly these bytes, and where they are not, it returns none.
#[verifier::external_body]
fn string_from_utf8(bytes: Vec<u8>) -> (r: Option<String>)
    ensures
        r is Some <==> valid_utf8(bytes@),
        r matches Some(text) ==> encode_utf8(text@) == bytes@,
{
    String::from_utf8(bytes).ok()
}

} // verus!
