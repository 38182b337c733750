//! The compact formatter: delimiters only, no inserted whitespace.

use vstd::prelude::*;
use vstd::utf8::encode_utf8;
use crate::formatter::{Event, Formatter};
use crate::number::{signed_bytes, signed_text, unsigned_bytes, unsigned_text};
use crate::sink::Sink;

verus! {

/// The compact text of an event.
pub open spec fn compact_text(event: Event) -> Seq<u8> {
    match event {
        Event::Null => seq!['#' as u8],
        Event::Bool(value) => if value {
            seq!['%' as u8, 't' as u8, 'r' as u8, 'u' as u8, 'e' as u8]
        } else {
            seq!['%' as u8, 'f' as u8, 'a' as u8, 'l' as u8, 's' as u8, 'e' as u8]
        },
        Event::Signed(value) => signed_text(value),
        Event::Unsigned(value) => unsigned_text(value),
        Event::NumberStr(text) => encode_utf8(text),
        Event::BeginString => seq!['"' as u8],
        Event::StringFragment(text) => encode_utf8(text),
        Event::EndString => seq!['"' as u8],
        Event::RawFragment(text) => encode_utf8(text),
        Event::BeginList => seq!['[' as u8],
        Event::BeginListValue(first) => if first {
            Seq::empty()
        } else {
            seq![';' as u8]
        },
        Event::EndListValue => Seq::empty(),
        Event::EndList => seq![']' as u8],
        Event::BeginMap => seq!['{' as u8],
        Event::BeginMapKey(first) => if first {
            Seq::empty()
        } else {
            seq![';' as u8]
        },
        Event::EndMapKey => Seq::empty(),
        Event::BeginMapValue => seq!['=' as u8],
        Event::EndMapValue => Seq::empty(),
        Event::EndMap => seq!['}' as u8],
        Event::BeginAttributes => seq!['<' as u8],
        Event::EndAttributes => seq!['>' as u8],
    }
}

/// The compact formatter. It keeps no state: every event has one text.
#[derive(Clone, Debug)]
pub struct TextFormatter;

impl Formatter for TextFormatter {
    open spec fn text(&self, event: Event) -> Seq<u8> {
        compact_text(event)
    }

    open spec fn next(&self, event: Event) -> Self {
        *self
    }

    open spec fn accepts(&self, event: Event) -> bool {
        true
    }

    fn write_null<W: Sink>(&mut self, writer: &mut W) -> (r: Result<(), W::Error>) {
        let text: [u8; 1] = ['#' as u8];
        writer.write_all(text.as_slice())
    }

    fn write_bool<W: Sink>(&mut self, writer: &mut W, value: bool) -> (r: Result<(), W::Error>) {
        if value {
            let text: [u8; 5] = ['%' as u8, 't' as u8, 'r' as u8, 'u' as u8, 'e' as u8];
            writer.write_all(text.as_slice())
        } else {
            let text: [u8; 6] = ['%' as u8, 'f' as u8, 'a' as u8, 'l' as u8, 's' as u8, 'e' as u8];
            writer.write_all(text.as_slice())
        }
    }

    fn write_i8<W: Sink>(&mut self, writer: &mut W, value: i8) -> (r: Result<(), W::Error>) {
        let text = signed_bytes(value as i128);
        writer.write_all(text.as_slice())
    }

    fn write_i16<W: Sink>(&mut self, writer: &mut W, value: i16) -> (r: Result<(), W::Error>) {
        let text = signed_bytes(value as i128);
        writer.write_all(text.as_slice())
    }

    fn write_i32<W: Sink>(&mut self, writer: &mut W, value: i32) -> (r: Result<(), W::Error>) {
        let text = signed_bytes(value as i128);
        writer.write_all(text.as_slice())
    }

    fn write_i64<W: Sink>(&mut self, writer: &mut W, value: i64) -> (r: Result<(), W::Error>) {
        let text = signed_bytes(value as i128);
        writer.write_all(text.as_slice())
    }

    fn write_i128<W: Sink>(&mut self, writer: &mut W, value: i128) -> (r: Result<(), W::Error>) {
        let text = signed_bytes(value);
        writer.write_all(text.as_slice())
    }

    fn write_u8<W: Sink>(&mut self, writer: &mut W, value: u8) -> (r: Result<(), W::Error>) {
        let text = unsigned_bytes(value as u128);
        writer.write_all(text.as_slice())
    }

    fn write_u16<W: Sink>(&mut self, writer: &mut W, value: u16) -> (r: Result<(), W::Error>) {
        let text = unsigned_bytes(value as u128);
        writer.write_all(text.as_slice())
    }

    fn write_u32<W: Sink>(&mut self, writer: &mut W, value: u32) -> (r: Result<(), W::Error>) {
        let text = unsigned_bytes(value as u128);
        writer.write_all(text.as_slice())
    }

    fn write_u64<W: Sink>(&mut self, writer: &mut W, value: u64) -> (r: Result<(), W::Error>) {
        let text = unsigned_bytes(value as u128);
        writer.write_all(text.as_slice())
    }

    fn write_u128<W: Sink>(&mut self, writer: &mut W, value: u128) -> (r: Result<(), W::Error>) {
        let text = unsigned_bytes(value);
        writer.write_all(text.as_slice())
    }

    fn write_number_str<W: Sink>(
        &mut self,
        writer: &mut W,
        value: &str,
    ) -> (r: Result<(), W::Error>) {
        writer.write_all(value.as_bytes())
    }

    fn begin_string<W: Sink>(&mut self, writer: &mut W) -> (r: Result<(), W::Error>) {
        let text: [u8; 1] = ['"' as u8];
        writer.write_all(text.as_slice())
    }

    fn end_string<W: Sink>(&mut self, writer: &mut W) -> (r: Result<(), W::Error>) {
        let text: [u8; 1] = ['"' as u8];
        writer.write_all(text.as_slice())
    }

    fn write_string_fragment<W: Sink>(
        &mut self,
        writer: &mut W,
        fragment: &str,
    ) -> (r: Result<(), W::Error>) {
        writer.write_all(fragment.as_bytes())
    }

    fn begin_list<W: Sink>(&mut self, writer: &mut W) -> (r: Result<(), W::Error>) {
        let text: [u8; 1] = ['[' as u8];
        writer.write_all(text.as_slice())
    }

    fn end_list<W: Sink>(&mut self, writer: &mut W) -> (r: Result<(), W::Error>) {
        let text: [u8; 1] = [']' as u8];
        writer.write_all(text.as_slice())
    }

    fn begin_list_value<W: Sink>(
        &mut self,
        writer: &mut W,
        first: bool,
    ) -> (r: Result<(), W::Error>) {
        if first {
            Ok(())
        } else {
            let text: [u8; 1] = [';' as u8];
            writer.write_all(text.as_slice())
        }
    }

    fn end_list_value<W: Sink>(&mut self, writer: &mut W) -> (r: Result<(), W::Error>) {
        Ok(())
    }

    fn begin_map<W: Sink>(&mut self, writer: &mut W) -> (r: Result<(), W::Error>) {
        let text: [u8; 1] = ['{' as u8];
        writer.write_all(text.as_slice())
    }

    fn end_map<W: Sink>(&mut self, writer: &mut W) -> (r: Result<(), W::Error>) {
        let text: [u8; 1] = ['}' as u8];
        writer.write_all(text.as_slice())
    }

    fn begin_map_key<W: Sink>(&mut self, writer: &mut W, first: bool) -> (r: Result<(), W::Error>) {
        if first {
            Ok(())
        } else {
            let text: [u8; 1] = [';' as u8];
            writer.write_all(text.as_slice())
        }
    }

    fn end_map_key<W: Sink>(&mut self, writer: &mut W) -> (r: Result<(), W::Error>)
        ensures
            r is Ok,
            *final(writer) == *old(writer),
    {
        Ok(())
    }

    fn begin_map_value<W: Sink>(&mut self, writer: &mut W) -> (r: Result<(), W::Error>) {
        let text: [u8; 1] = ['=' as u8];
        writer.write_all(text.as_slice())
    }

    fn end_map_value<W: Sink>(&mut self, writer: &mut W) -> (r: Result<(), W::Error>) {
        Ok(())
    }

    fn write_raw_fragment<W: Sink>(
        &mut self,
        writer: &mut W,
        fragment: &str,
    ) -> (r: Result<(), W::Error>) {
        writer.write_all(fragment.as_bytes())
    }

    fn begin_attributes<W: Sink>(&mut self, writer: &mut W) -> (r: Result<(), W::Error>) {
        let text: [u8; 1] = ['<' as u8];
        writer.write_all(text.as_slice())
    }

    fn end_attributes<W: Sink>(&mut self, writer: &mut W) -> (r: Result<(), W::Error>) {
        let text: [u8; 1] = ['>' as u8];
        writer.write_all(text.as_slice())
    }
}

} // verus!
