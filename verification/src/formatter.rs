//! Formatters: the components that turn the structural events of a document
//! into bytes on a sink.
//!
//! A formatter is modelled by three spec functions: the text it emits for an
//! event, the state it is in afterwards, and whether it can take the event.
//! A [`Run`] folds these over a sequence of events, and the contracts of the
//! functions that write more than one event are stated over runs.
//!
//! [`TextFormatter`] is the compact formatter. Another formatter can hand
//! every event that it formats in the same way on to it, as
//! [`PrettyFormatter`] does.

use vstd::prelude::*;
use crate::sink::{lemma_truncated_within, truncated, wrote, Sink};

pub mod compact;
pub mod pretty;
pub mod to;

pub use self::compact::TextFormatter;
pub use self::pretty::{indent, PrettyFormatter};
pub use self::to::{to_string, to_vec, to_writer};

verus! {

/// A structural event of a document, as the model of a formatter sees it.
pub enum Event {
    Null,
    Bool(bool),
    /// A signed integer of any width.
    Signed(int),
    /// An unsigned integer of any width.
    Unsigned(nat),
    /// A number that is already text.
    NumberStr(Seq<char>),
    BeginString,
    StringFragment(Seq<char>),
    EndString,
    RawFragment(Seq<char>),
    BeginList,
    /// Before a list element; the flag marks the first one.
    BeginListValue(bool),
    EndListValue,
    EndList,
    BeginMap,
    /// Before a key; the flag marks the first one.
    BeginMapKey(bool),
    EndMapKey,
    BeginMapValue,
    EndMapValue,
    EndMap,
    BeginAttributes,
    EndAttributes,
}

/// What a formatter does over a sequence of events: the state it reaches,
/// the bytes it emits, and whether it can take every event.
pub struct Run<F> {
    pub state: F,
    pub text: Seq<u8>,
    pub accepted: bool,
}

impl<F: Formatter> Run<F> {
    /// The run of no events.
    pub open spec fn idle(state: F) -> Self {
        Run { state, text: Seq::empty(), accepted: true }
    }

    /// This run followed by `event`.
    pub open spec fn emit(self, event: Event) -> Self {
        Run {
            state: self.state.next(event),
            text: self.text + self.state.text(event),
            accepted: self.accepted && self.state.accepts(event),
        }
    }

    /// This run followed by `rest`, a run that starts in the state this one
    /// ends in.
    pub open spec fn followed_by(self, rest: Self) -> Self {
        Run {
            state: rest.state,
            text: self.text + rest.text,
            accepted: self.accepted && rest.accepted,
        }
    }
}

/// A formatter and a sink have gone through `run`: the sink, which was
/// `before` and is `now`, took the text of the run as [`wrote`] has it, and
/// after a success the formatter is in the state `state` that the run ends
/// in.
pub open spec fn performed<F: Formatter, W: Sink>(
    run: Run<F>,
    state: F,
    before: W,
    now: W,
    r: Result<(), W::Error>,
) -> bool {
    &&& wrote(before, now, run.text, r)
    &&& r is Ok ==> state == run.state
}

/// Where `done` and then `event` start `whole`, a write for `event` that
/// fails after `done` was performed leaves a sink truncated within `whole`.
pub proof fn lemma_event_within<F: Formatter>(
    before: Seq<u8>,
    done: Run<F>,
    event: Event,
    whole: Run<F>,
)
    requires
        (done.text + done.state.text(event)).is_prefix_of(whole.text),
    ensures
        forall|now: Seq<u8>| #[trigger]
            truncated(before + done.text, now, done.state.text(event)) ==> truncated(
                before,
                now,
                whole.text,
            ),
{
    lemma_truncated_within(before, done.text, done.state.text(event), whole.text);
}

/// Where `done` and then `part` start `whole`, a write within `part` that
/// fails after `done` was performed leaves a sink truncated within `whole`.
pub proof fn lemma_run_within<F: Formatter>(
    before: Seq<u8>,
    done: Run<F>,
    part: Run<F>,
    whole: Run<F>,
)
    requires
        (done.text + part.text).is_prefix_of(whole.text),
    ensures
        forall|now: Seq<u8>| #[trigger]
            truncated(before + done.text, now, part.text) ==> truncated(before, now, whole.text),
{
    lemma_truncated_within(before, done.text, part.text, whole.text);
}

/// The elements of a byte list from index `from` on.
pub open spec fn byte_items_run<F: Formatter>(f: F, bytes: Seq<u8>, from: int) -> Run<F>
    decreases bytes.len() - from,
{
    if 0 <= from < bytes.len() {
        let one = Run::idle(f).emit(Event::BeginListValue(from == 0)).emit(
            Event::Unsigned(bytes[from] as nat),
        ).emit(Event::EndListValue);
        one.followed_by(byte_items_run(one.state, bytes, from + 1))
    } else {
        Run::idle(f)
    }
}

/// Bytes as a list of unsigned integers.
pub open spec fn bytes_run<F: Formatter>(f: F, bytes: Seq<u8>) -> Run<F> {
    let opened = Run::idle(f).emit(Event::BeginList);
    opened.followed_by(byte_items_run(opened.state, bytes, 0)).emit(Event::EndList)
}

/// Turns structural events into bytes on a sink.
///
/// The three spec functions are the formatter's model: what it emits for an
/// event, the state it is in afterwards, and whether it can take the event at
/// all. Every writing method does what the model says.
pub trait Formatter: Sized {
    /// The bytes emitted for `event` in this state.
    spec fn text(&self, event: Event) -> Seq<u8>;

    /// The state after `event`.
    spec fn next(&self, event: Event) -> Self;

    /// Whether `event` can be taken in this state: false only where a
    /// counter of the formatter would leave its range.
    spec fn accepts(&self, event: Event) -> bool;

    /// Writes the null value.
    fn write_null<W: Sink>(&mut self, writer: &mut W) -> (r: Result<(), W::Error>)
        requires
            old(self).accepts(Event::Null),
        ensures
            wrote(*old(writer), *final(writer), old(self).text(Event::Null), r),
            r is Ok ==> *final(self) == old(self).next(Event::Null),
    ;

    /// Writes a boolean.
    fn write_bool<W: Sink>(&mut self, writer: &mut W, value: bool) -> (r: Result<(), W::Error>)
        requires
            old(self).accepts(Event::Bool(value)),
        ensures
            wrote(*old(writer), *final(writer), old(self).text(Event::Bool(value)), r),
            r is Ok ==> *final(self) == old(self).next(Event::Bool(value)),
    ;

    /// Writes a signed integer.
    fn write_i8<W: Sink>(&mut self, writer: &mut W, value: i8) -> (r: Result<(), W::Error>)
        requires
            old(self).accepts(Event::Signed(value as int)),
        ensures
            wrote(*old(writer), *final(writer), old(self).text(Event::Signed(value as int)), r),
            r is Ok ==> *final(self) == old(self).next(Event::Signed(value as int)),
    ;

    /// Writes a signed integer.
    fn write_i16<W: Sink>(&mut self, writer: &mut W, value: i16) -> (r: Result<(), W::Error>)
        requires
            old(self).accepts(Event::Signed(value as int)),
        ensures
            wrote(*old(writer), *final(writer), old(self).text(Event::Signed(value as int)), r),
            r is Ok ==> *final(self) == old(self).next(Event::Signed(value as int)),
    ;

    /// Writes a signed integer.
    fn write_i32<W: Sink>(&mut self, writer: &mut W, value: i32) -> (r: Result<(), W::Error>)
        requires
            old(self).accepts(Event::Signed(value as int)),
        ensures
            wrote(*old(writer), *final(writer), old(self).text(Event::Signed(value as int)), r),
            r is Ok ==> *final(self) == old(self).next(Event::Signed(value as int)),
    ;

    /// Writes a signed integer.
    fn write_i64<W: Sink>(&mut self, writer: &mut W, value: i64) -> (r: Result<(), W::Error>)
        requires
            old(self).accepts(Event::Signed(value as int)),
        ensures
            wrote(*old(writer), *final(writer), old(self).text(Event::Signed(value as int)), r),
            r is Ok ==> *final(self) == old(self).next(Event::Signed(value as int)),
    ;

    /// Writes a signed integer.
    fn write_i128<W: Sink>(&mut self, writer: &mut W, value: i128) -> (r: Result<(), W::Error>)
        requires
            old(self).accepts(Event::Signed(value as int)),
        ensures
            wrote(*old(writer), *final(writer), old(self).text(Event::Signed(value as int)), r),
            r is Ok ==> *final(self) == old(self).next(Event::Signed(value as int)),
    ;

    /// Writes an unsigned integer.
    fn write_u8<W: Sink>(&mut self, writer: &mut W, value: u8) -> (r: Result<(), W::Error>)
        requires
            old(self).accepts(Event::Unsigned(value as nat)),
        ensures
            wrote(*old(writer), *final(writer), old(self).text(Event::Unsigned(value as nat)), r),
            r is Ok ==> *final(self) == old(self).next(Event::Unsigned(value as nat)),
    ;

    /// Writes an unsigned integer.
    fn write_u16<W: Sink>(&mut self, writer: &mut W, value: u16) -> (r: Result<(), W::Error>)
        requires
            old(self).accepts(Event::Unsigned(value as nat)),
        ensures
            wrote(*old(writer), *final(writer), old(self).text(Event::Unsigned(value as nat)), r),
            r is Ok ==> *final(self) == old(self).next(Event::Unsigned(value as nat)),
    ;

    /// Writes an unsigned integer.
    fn write_u32<W: Sink>(&mut self, writer: &mut W, value: u32) -> (r: Result<(), W::Error>)
        requires
            old(self).accepts(Event::Unsigned(value as nat)),
        ensures
            wrote(*old(writer), *final(writer), old(self).text(Event::Unsigned(value as nat)), r),
            r is Ok ==> *final(self) == old(self).next(Event::Unsigned(value as nat)),
    ;

    /// Writes an unsigned integer.
    fn write_u64<W: Sink>(&mut self, writer: &mut W, value: u64) -> (r: Result<(), W::Error>)
        requires
            old(self).accepts(Event::Unsigned(value as nat)),
        ensures
            wrote(*old(writer), *final(writer), old(self).text(Event::Unsigned(value as nat)), r),
            r is Ok ==> *final(self) == old(self).next(Event::Unsigned(value as nat)),
    ;

    /// Writes an unsigned integer.
    fn write_u128<W: Sink>(&mut self, writer: &mut W, value: u128) -> (r: Result<(), W::Error>)
        requires
            old(self).accepts(Event::Unsigned(value as nat)),
        ensures
            wrote(*old(writer), *final(writer), old(self).text(Event::Unsigned(value as nat)), r),
            r is Ok ==> *final(self) == old(self).next(Event::Unsigned(value as nat)),
    ;

    /// Writes a number that the caller has already turned into text.
    fn write_number_str<W: Sink>(
        &mut self,
        writer: &mut W,
        value: &str,
    ) -> (r: Result<(), W::Error>)
        requires
            old(self).accepts(Event::NumberStr(value@)),
        ensures
            wrote(*old(writer), *final(writer), old(self).text(Event::NumberStr(value@)), r),
            r is Ok ==> *final(self) == old(self).next(Event::NumberStr(value@)),
    ;

    /// Called before the fragments of a string.
    fn begin_string<W: Sink>(&mut self, writer: &mut W) -> (r: Result<(), W::Error>)
        requires
            old(self).accepts(Event::BeginString),
        ensures
            wrote(*old(writer), *final(writer), old(self).text(Event::BeginString), r),
            r is Ok ==> *final(self) == old(self).next(Event::BeginString),
    ;

    /// Called after the fragments of a string.
    fn end_string<W: Sink>(&mut self, writer: &mut W) -> (r: Result<(), W::Error>)
        requires
            old(self).accepts(Event::EndString),
        ensures
            wrote(*old(writer), *final(writer), old(self).text(Event::EndString), r),
            r is Ok ==> *final(self) == old(self).next(Event::EndString),
    ;

    /// Writes a piece of a string.
    fn write_string_fragment<W: Sink>(
        &mut self,
        writer: &mut W,
        fragment: &str,
    ) -> (r: Result<(), W::Error>)
        requires
            old(self).accepts(Event::StringFragment(fragment@)),
        ensures
            wrote(
                *old(writer),
                *final(writer),
                old(self).text(Event::StringFragment(fragment@)),
                r,
            ),
            r is Ok ==> *final(self) == old(self).next(Event::StringFragment(fragment@)),
    ;

    /// Called before the elements of a list.
    fn begin_list<W: Sink>(&mut self, writer: &mut W) -> (r: Result<(), W::Error>)
        requires
            old(self).accepts(Event::BeginList),
        ensures
            wrote(*old(writer), *final(writer), old(self).text(Event::BeginList), r),
            r is Ok ==> *final(self) == old(self).next(Event::BeginList),
    ;

    /// Called after the elements of a list.
    fn end_list<W: Sink>(&mut self, writer: &mut W) -> (r: Result<(), W::Error>)
        requires
            old(self).accepts(Event::EndList),
        ensures
            wrote(*old(writer), *final(writer), old(self).text(Event::EndList), r),
            r is Ok ==> *final(self) == old(self).next(Event::EndList),
    ;

    /// Called before each element of a list; `first` marks the first one.
    fn begin_list_value<W: Sink>(
        &mut self,
        writer: &mut W,
        first: bool,
    ) -> (r: Result<(), W::Error>)
        requires
            old(self).accepts(Event::BeginListValue(first)),
        ensures
            wrote(*old(writer), *final(writer), old(self).text(Event::BeginListValue(first)), r),
            r is Ok ==> *final(self) == old(self).next(Event::BeginListValue(first)),
    ;

    /// Called after each element of a list.
    fn end_list_value<W: Sink>(&mut self, writer: &mut W) -> (r: Result<(), W::Error>)
        requires
            old(self).accepts(Event::EndListValue),
        ensures
            wrote(*old(writer), *final(writer), old(self).text(Event::EndListValue), r),
            r is Ok ==> *final(self) == old(self).next(Event::EndListValue),
    ;

    /// Called before the entries of a map.
    fn begin_map<W: Sink>(&mut self, writer: &mut W) -> (r: Result<(), W::Error>)
        requires
            old(self).accepts(Event::BeginMap),
        ensures
            wrote(*old(writer), *final(writer), old(self).text(Event::BeginMap), r),
            r is Ok ==> *final(self) == old(self).next(Event::BeginMap),
    ;

    /// Called after the entries of a map.
    fn end_map<W: Sink>(&mut self, writer: &mut W) -> (r: Result<(), W::Error>)
        requires
            old(self).accepts(Event::EndMap),
        ensures
            wrote(*old(writer), *final(writer), old(self).text(Event::EndMap), r),
            r is Ok ==> *final(self) == old(self).next(Event::EndMap),
    ;

    /// Called before each key; `first` marks the first one.
    fn begin_map_key<W: Sink>(&mut self, writer: &mut W, first: bool) -> (r: Result<(), W::Error>)
        requires
            old(self).accepts(Event::BeginMapKey(first)),
        ensures
            wrote(*old(writer), *final(writer), old(self).text(Event::BeginMapKey(first)), r),
            r is Ok ==> *final(self) == old(self).next(Event::BeginMapKey(first)),
    ;

    /// Called after each key.
    fn end_map_key<W: Sink>(&mut self, writer: &mut W) -> (r: Result<(), W::Error>)
        requires
            old(self).accepts(Event::EndMapKey),
        ensures
            wrote(*old(writer), *final(writer), old(self).text(Event::EndMapKey), r),
            r is Ok ==> *final(self) == old(self).next(Event::EndMapKey),
    ;

    /// Called before the value of each entry.
    fn begin_map_value<W: Sink>(&mut self, writer: &mut W) -> (r: Result<(), W::Error>)
        requires
            old(self).accepts(Event::BeginMapValue),
        ensures
            wrote(*old(writer), *final(writer), old(self).text(Event::BeginMapValue), r),
            r is Ok ==> *final(self) == old(self).next(Event::BeginMapValue),
    ;

    /// Called after the value of each entry.
    fn end_map_value<W: Sink>(&mut self, writer: &mut W) -> (r: Result<(), W::Error>)
        requires
            old(self).accepts(Event::EndMapValue),
        ensures
            wrote(*old(writer), *final(writer), old(self).text(Event::EndMapValue), r),
            r is Ok ==> *final(self) == old(self).next(Event::EndMapValue),
    ;

    /// Writes text that is already in its final form.
    fn write_raw_fragment<W: Sink>(
        &mut self,
        writer: &mut W,
        fragment: &str,
    ) -> (r: Result<(), W::Error>)
        requires
            old(self).accepts(Event::RawFragment(fragment@)),
        ensures
            wrote(*old(writer), *final(writer), old(self).text(Event::RawFragment(fragment@)), r),
            r is Ok ==> *final(self) == old(self).next(Event::RawFragment(fragment@)),
    ;

    /// Called before the entries of an attribute block.
    fn begin_attributes<W: Sink>(&mut self, writer: &mut W) -> (r: Result<(), W::Error>)
        requires
            old(self).accepts(Event::BeginAttributes),
        ensures
            wrote(*old(writer), *final(writer), old(self).text(Event::BeginAttributes), r),
            r is Ok ==> *final(self) == old(self).next(Event::BeginAttributes),
    ;

    /// Called after the entries of an attribute block.
    fn end_attributes<W: Sink>(&mut self, writer: &mut W) -> (r: Result<(), W::Error>)
        requires
            old(self).accepts(Event::EndAttributes),
        ensures
            wrote(*old(writer), *final(writer), old(self).text(Event::EndAttributes), r),
            r is Ok ==> *final(self) == old(self).next(Event::EndAttributes),
    ;
}

/// Writes bytes as a list of unsigned integers.
pub fn write_byte_list<W: Sink, F: Formatter>(
    formatter: &mut F,
    writer: &mut W,
    value: &[u8],
) -> (r: Result<(), W::Error>)
    requires
        bytes_run(*old(formatter), value@).accepted,
    ensures
        performed(
            bytes_run(*old(formatter), value@),
            *final(formatter),
            *old(writer),
            *final(writer),
            r,
        ),
{
    let ghost start = *formatter;
    let ghost before = writer.written();
    let ghost whole = bytes_run(start, value@);
    let ghost opened = Run::idle(start).emit(Event::BeginList);
    formatter.begin_list(writer)?;
    let ghost mut done = opened;
    let mut first = true;
    let mut i: usize = 0;
    while i < value.len()
        invariant
            i <= value.len(),
            first == (i == 0),
            start == *old(formatter),
            before == old(writer).written(),
            whole == bytes_run(start, value@),
            whole.accepted,
            opened == Run::idle(start).emit(Event::BeginList),
            *formatter == done.state,
            writer.written() == before + done.text,
            done.followed_by(byte_items_run(done.state, value@, i as int)) == opened.followed_by(
                byte_items_run(opened.state, value@, 0),
            ),
        decreases value.len() - i,
    {
        let ghost a = done.emit(Event::BeginListValue(first));
        let ghost b = a.emit(Event::Unsigned(value@[i as int] as nat));
        let ghost c = b.emit(Event::EndListValue);
        proof {
            let tail = byte_items_run(c.state, value@, i + 1);
            assert(c.followed_by(tail).text =~= done.followed_by(
                byte_items_run(done.state, value@, i as int),
            ).text);
            lemma_event_within(before, done, Event::BeginListValue(first), whole);
            lemma_event_within(before, a, Event::Unsigned(value@[i as int] as nat), whole);
            lemma_event_within(before, b, Event::EndListValue, whole);
        }
        formatter.begin_list_value(writer, first)?;
        assert(writer.written() == before + a.text);
        formatter.write_u8(writer, value[i])?;
        assert(writer.written() == before + b.text);
        formatter.end_list_value(writer)?;
        assert(writer.written() == before + c.text);
        first = false;
        i += 1;
        proof {
            done = c;
        }
    }
    proof {
        lemma_event_within(before, done, Event::EndList, whole);
    }
    formatter.end_list(writer)
}

} // verus!
