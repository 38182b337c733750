//! The pretty formatter: one element or entry per line, indented by its
//! nesting depth.

use vstd::prelude::*;
use crate::formatter::compact::TextFormatter;
use crate::formatter::{Event, Formatter};
use crate::sink::{lemma_truncated_within, wrote, Sink};

verus! {

/// `count` copies of `unit`, one after another.
pub open spec fn repeat(unit: Seq<u8>, count: nat) -> Seq<u8>
    decreases count,
{
    if count == 0 {
        Seq::empty()
    } else {
        repeat(unit, (count - 1) as nat) + unit
    }
}

/// What starts the line of an element or entry at depth `depth`: a line
/// break, after a separator unless it is the first, and `depth` units of
/// indentation.
pub open spec fn line_start(unit: Seq<u8>, depth: nat, first: bool) -> Seq<u8> {
    if first {
        seq!['\n' as u8] + repeat(unit, depth)
    } else {
        seq![';' as u8, '\n' as u8] + repeat(unit, depth)
    }
}

/// What stands between the last line of a block and its closing delimiter: a
/// line break and the indentation of the depth `depth` at which the block
/// was opened. An empty block has no lines, and nothing stands there.
pub open spec fn line_end(unit: Seq<u8>, depth: nat, empty: bool) -> Seq<u8> {
    if empty {
        Seq::empty()
    } else {
        seq!['\n' as u8] + repeat(unit, depth)
    }
}

/// Fewer copies of a unit start more copies of it.
pub proof fn lemma_repeat_prefix(unit: Seq<u8>, fewer: nat, more: nat)
    requires
        fewer <= more,
    ensures
        repeat(unit, fewer).is_prefix_of(repeat(unit, more)),
    decreases more,
{
    if fewer < more {
        lemma_repeat_prefix(unit, fewer, (more - 1) as nat);
    }
}

/// Copies of a unit are as long as the unit, times their number.
pub proof fn lemma_repeat_len(unit: Seq<u8>, count: nat)
    ensures
        repeat(unit, count).len() == count * unit.len(),
    decreases count,
{
    let n = unit.len() as int;
    if count > 0 {
        let fewer = (count - 1) as nat;
        lemma_repeat_len(unit, fewer);
        assert(count * n == fewer * n + n) by (nonlinear_arith)
            requires
                count == fewer + 1,
        ;
    } else {
        assert(count * n == 0) by (nonlinear_arith)
            requires
                count == 0,
        ;
    }
}

/// Writes `s` to `w`, `n` times.
pub fn indent<W: Sink>(w: &mut W, n: usize, s: &[u8]) -> (r: Result<(), W::Error>)
    ensures
        wrote(*old(w), *final(w), repeat(s@, n as nat), r),
{
    let ghost before = w.written();
    let mut i: usize = 0;
    while i < n
        invariant
            i <= n,
            before == old(w).written(),
            w.written() == before + repeat(s@, i as nat),
        decreases n - i,
    {
        proof {
            lemma_repeat_prefix(s@, (i + 1) as nat, n as nat);
            lemma_truncated_within(before, repeat(s@, i as nat), s@, repeat(s@, n as nat));
        }
        w.write_all(s)?;
        i += 1;
    }
    Ok(())
}

/// The pretty formatter.
///
/// `current_indent` is the number of lists, maps and attribute blocks that
/// are open. `has_value` says whether the innermost of them has taken an
/// element or entry yet. `indent` is the text of one level of indentation.
#[derive(Clone, Debug)]
pub struct PrettyFormatter<'a> {
    pub current_indent: usize,
    pub has_value: bool,
    pub indent: &'a [u8],
}

impl<'a> PrettyFormatter<'a> {
    /// A formatter that indents by two spaces.
    pub fn new() -> (formatter: Self)
        ensures
            formatter.current_indent == 0,
            !formatter.has_value,
            formatter.indent@ == seq![' ' as u8, ' ' as u8],
    {
        let unit = "  ";
        proof {
            reveal_strlit("  ");
            vstd::string::is_ascii_spec_bytes(unit);
        }
        PrettyFormatter::with_indent(unit.as_bytes())
    }

    /// A formatter that indents by `indent`.
    pub fn with_indent(indent: &'a [u8]) -> (formatter: Self)
        ensures
            formatter.current_indent == 0,
            !formatter.has_value,
            formatter.indent == indent,
    {
        PrettyFormatter { current_indent: 0, has_value: false, indent }
    }

    /// The formatter one level further in, with nothing in the new level yet.
    pub open spec fn entered(self) -> Self {
        PrettyFormatter {
            current_indent: (self.current_indent + 1) as usize,
            has_value: false,
            indent: self.indent,
        }
    }

    /// The formatter one level further out.
    pub open spec fn left(self) -> Self {
        PrettyFormatter {
            current_indent: (self.current_indent - 1) as usize,
            has_value: self.has_value,
            indent: self.indent,
        }
    }

    /// The formatter after an element or entry of the innermost level.
    pub open spec fn filled(self) -> Self {
        PrettyFormatter {
            current_indent: self.current_indent,
            has_value: true,
            indent: self.indent,
        }
    }

    /// What stands before the closing delimiter of the innermost level, which
    /// was opened one level further out.
    pub open spec fn closing_line(self) -> Seq<u8> {
        line_end(self.indent@, (self.current_indent - 1) as nat, !self.has_value)
    }
}

impl<'a> Default for PrettyFormatter<'a> {
    /// The formatter that [`PrettyFormatter::new`] gives.
    fn default() -> (formatter: Self)
        ensures
            formatter.current_indent == 0,
            !formatter.has_value,
            formatter.indent@ == seq![' ' as u8, ' ' as u8],
    {
        PrettyFormatter::new()
    }
}

impl<'a> Formatter for PrettyFormatter<'a> {
    /// The texts that differ from the compact ones are those of the lines:
    /// their starts, their ends before a closing delimiter, and the padded
    /// separator between a key and its value.
    open spec fn text(&self, event: Event) -> Seq<u8> {
        match event {
            Event::BeginListValue(first) => line_start(
                self.indent@,
                self.current_indent as nat,
                first,
            ),
            Event::BeginMapKey(first) => line_start(
                self.indent@,
                self.current_indent as nat,
                first,
            ),
            Event::BeginMapValue => seq![' ' as u8, '=' as u8, ' ' as u8],
            Event::EndList => self.closing_line() + seq![']' as u8],
            Event::EndMap => self.closing_line() + seq!['}' as u8],
            Event::EndAttributes => self.closing_line() + seq!['>' as u8, ' ' as u8],
            _ => TextFormatter.text(event),
        }
    }

    open spec fn next(&self, event: Event) -> Self {
        match event {
            Event::BeginList | Event::BeginMap | Event::BeginAttributes => self.entered(),
            Event::EndList | Event::EndMap | Event::EndAttributes => self.left(),
            Event::EndListValue | Event::EndMapValue => self.filled(),
            _ => *self,
        }
    }

    /// The nesting counter has to stay in its range.
    open spec fn accepts(&self, event: Event) -> bool {
        match event {
            Event::BeginList | Event::BeginMap | Event::BeginAttributes => self.current_indent
                < usize::MAX,
            Event::EndList | Event::EndMap | Event::EndAttributes => self.current_indent > 0,
            _ => true,
        }
    }

    fn write_null<W: Sink>(&mut self, writer: &mut W) -> (r: Result<(), W::Error>) {
        let mut compact = TextFormatter;
        compact.write_null(writer)
    }

    fn write_bool<W: Sink>(&mut self, writer: &mut W, value: bool) -> (r: Result<(), W::Error>) {
        let mut compact = TextFormatter;
        compact.write_bool(writer, value)
    }

    fn write_i8<W: Sink>(&mut self, writer: &mut W, value: i8) -> (r: Result<(), W::Error>) {
        let mut compact = TextFormatter;
        compact.write_i8(writer, value)
    }

    fn write_i16<W: Sink>(&mut self, writer: &mut W, value: i16) -> (r: Result<(), W::Error>) {
        let mut compact = TextFormatter;
        compact.write_i16(writer, value)
    }

    fn write_i32<W: Sink>(&mut self, writer: &mut W, value: i32) -> (r: Result<(), W::Error>) {
        let mut compact = TextFormatter;
        compact.write_i32(writer, value)
    }

    fn write_i64<W: Sink>(&mut self, writer: &mut W, value: i64) -> (r: Result<(), W::Error>) {
        let mut compact = TextFormatter;
        compact.write_i64(writer, value)
    }

    fn write_i128<W: Sink>(&mut self, writer: &mut W, value: i128) -> (r: Result<(), W::Error>) {
        let mut compact = TextFormatter;
        compact.write_i128(writer, value)
    }

    fn write_u8<W: Sink>(&mut self, writer: &mut W, value: u8) -> (r: Result<(), W::Error>) {
        let mut compact = TextFormatter;
        compact.write_u8(writer, value)
    }

    fn write_u16<W: Sink>(&mut self, writer: &mut W, value: u16) -> (r: Result<(), W::Error>) {
        let mut compact = TextFormatter;
        compact.write_u16(writer, value)
    }

    fn write_u32<W: Sink>(&mut self, writer: &mut W, value: u32) -> (r: Result<(), W::Error>) {
        let mut compact = TextFormatter;
        compact.write_u32(writer, value)
    }

    fn write_u64<W: Sink>(&mut self, writer: &mut W, value: u64) -> (r: Result<(), W::Error>) {
        let mut compact = TextFormatter;
        compact.write_u64(writer, value)
    }

    fn write_u128<W: Sink>(&mut self, writer: &mut W, value: u128) -> (r: Result<(), W::Error>) {
        let mut compact = TextFormatter;
        compact.write_u128(writer, value)
    }

    fn write_number_str<W: Sink>(
        &mut self,
        writer: &mut W,
        value: &str,
    ) -> (r: Result<(), W::Error>) {
        let mut compact = TextFormatter;
        compact.write_number_str(writer, value)
    }

    fn begin_string<W: Sink>(&mut self, writer: &mut W) -> (r: Result<(), W::Error>) {
        let mut compact = TextFormatter;
        compact.begin_string(writer)
    }

    fn end_string<W: Sink>(&mut self, writer: &mut W) -> (r: Result<(), W::Error>) {
        let mut compact = TextFormatter;
        compact.end_string(writer)
    }

    fn write_string_fragment<W: Sink>(
        &mut self,
        writer: &mut W,
        fragment: &str,
    ) -> (r: Result<(), W::Error>) {
        let mut compact = TextFormatter;
        compact.write_string_fragment(writer, fragment)
    }

    fn begin_list<W: Sink>(&mut self, writer: &mut W) -> (r: Result<(), W::Error>)
        ensures
            *final(self) == old(self).entered(),
    {
        self.current_indent += 1;
        self.has_value = false;
        let text: [u8; 1] = ['[' as u8];
        writer.write_all(text.as_slice())
    }

    fn end_list<W: Sink>(&mut self, writer: &mut W) -> (r: Result<(), W::Error>)
        ensures
            *final(self) == old(self).left(),
    {
        let ghost before = writer.written();
        let ghost whole = self.text(Event::EndList);
        self.current_indent -= 1;
        if self.has_value {
            let line_break: [u8; 1] = ['\n' as u8];
            proof {
                let margin = repeat(self.indent@, self.current_indent as nat);
                lemma_truncated_within(before, Seq::empty(), line_break@, whole);
                lemma_truncated_within(before, line_break@, margin, whole);
                lemma_truncated_within(before, line_break@ + margin, seq![']' as u8], whole);
                assert(before + Seq::<u8>::empty() == before);
            }
            writer.write_all(line_break.as_slice())?;
            indent(writer, self.current_indent, self.indent)?;
        }
        let text: [u8; 1] = [']' as u8];
        writer.write_all(text.as_slice())
    }

    fn begin_list_value<W: Sink>(
        &mut self,
        writer: &mut W,
        first: bool,
    ) -> (r: Result<(), W::Error>)
        ensures
            *final(self) == *old(self),
    {
        let ghost before = writer.written();
        let ghost whole = self.text(Event::BeginListValue(first));
        let ghost margin = repeat(self.indent@, self.current_indent as nat);
        if first {
            let text: [u8; 1] = ['\n' as u8];
            proof {
                lemma_truncated_within(before, Seq::empty(), text@, whole);
                lemma_truncated_within(before, text@, margin, whole);
                assert(before + Seq::<u8>::empty() == before);
            }
            writer.write_all(text.as_slice())?;
        } else {
            let text: [u8; 2] = [';' as u8, '\n' as u8];
            proof {
                lemma_truncated_within(before, Seq::empty(), text@, whole);
                lemma_truncated_within(before, text@, margin, whole);
                assert(before + Seq::<u8>::empty() == before);
            }
            writer.write_all(text.as_slice())?;
        }
        indent(writer, self.current_indent, self.indent)
    }

    fn end_list_value<W: Sink>(&mut self, writer: &mut W) -> (r: Result<(), W::Error>)
        ensures
            *final(self) == old(self).filled(),
    {
        self.has_value = true;
        Ok(())
    }

    fn begin_map<W: Sink>(&mut self, writer: &mut W) -> (r: Result<(), W::Error>)
        ensures
            *final(self) == old(self).entered(),
    {
        self.current_indent += 1;
        self.has_value = false;
        let text: [u8; 1] = ['{' as u8];
        writer.write_all(text.as_slice())
    }

    fn end_map<W: Sink>(&mut self, writer: &mut W) -> (r: Result<(), W::Error>)
        ensures
            *final(self) == old(self).left(),
    {
        let ghost before = writer.written();
        let ghost whole = self.text(Event::EndMap);
        self.current_indent -= 1;
        if self.has_value {
            let line_break: [u8; 1] = ['\n' as u8];
            proof {
                let margin = repeat(self.indent@, self.current_indent as nat);
                lemma_truncated_within(before, Seq::empty(), line_break@, whole);
                lemma_truncated_within(before, line_break@, margin, whole);
                lemma_truncated_within(before, line_break@ + margin, seq!['}' as u8], whole);
                assert(before + Seq::<u8>::empty() == before);
            }
            writer.write_all(line_break.as_slice())?;
            indent(writer, self.current_indent, self.indent)?;
        }
        let text: [u8; 1] = ['}' as u8];
        writer.write_all(text.as_slice())
    }

    fn begin_map_key<W: Sink>(&mut self, writer: &mut W, first: bool) -> (r: Result<(), W::Error>)
        ensures
            *final(self) == *old(self),
    {
        let ghost before = writer.written();
        let ghost whole = self.text(Event::BeginMapKey(first));
        let ghost margin = repeat(self.indent@, self.current_indent as nat);
        if first {
            let text: [u8; 1] = ['\n' as u8];
            proof {
                lemma_truncated_within(before, Seq::empty(), text@, whole);
                lemma_truncated_within(before, text@, margin, whole);
                assert(before + Seq::<u8>::empty() == before);
            }
            writer.write_all(text.as_slice())?;
        } else {
            let text: [u8; 2] = [';' as u8, '\n' as u8];
            proof {
                lemma_truncated_within(before, Seq::empty(), text@, whole);
                lemma_truncated_within(before, text@, margin, whole);
                assert(before + Seq::<u8>::empty() == before);
            }
            writer.write_all(text.as_slice())?;
        }
        indent(writer, self.current_indent, self.indent)
    }

    fn end_map_key<W: Sink>(&mut self, writer: &mut W) -> (r: Result<(), W::Error>)
        ensures
            r is Ok,
            *final(writer) == *old(writer),
            *final(self) == *old(self),
    {
        // Nothing stands after a key: the sink is not written to, so this
        // succeeds with any sink.
        let mut compact = TextFormatter;
        compact.end_map_key(writer)
    }

    fn begin_map_value<W: Sink>(&mut self, writer: &mut W) -> (r: Result<(), W::Error>) {
        let text: [u8; 3] = [' ' as u8, '=' as u8, ' ' as u8];
        writer.write_all(text.as_slice())
    }

    fn end_map_value<W: Sink>(&mut self, writer: &mut W) -> (r: Result<(), W::Error>)
        ensures
            *final(self) == old(self).filled(),
    {
        self.has_value = true;
        Ok(())
    }

    fn write_raw_fragment<W: Sink>(
        &mut self,
        writer: &mut W,
        fragment: &str,
    ) -> (r: Result<(), W::Error>) {
        let mut compact = TextFormatter;
        compact.write_raw_fragment(writer, fragment)
    }

    fn begin_attributes<W: Sink>(&mut self, writer: &mut W) -> (r: Result<(), W::Error>)
        ensures
            *final(self) == old(self).entered(),
    {
        self.current_indent += 1;
        self.has_value = false;
        let text: [u8; 1] = ['<' as u8];
        writer.write_all(text.as_slice())
    }

    fn end_attributes<W: Sink>(&mut self, writer: &mut W) -> (r: Result<(), W::Error>)
        ensures
            *final(self) == old(self).left(),
    {
        let ghost before = writer.written();
        let ghost whole = self.text(Event::EndAttributes);
        self.current_indent -= 1;
        if self.has_value {
            let line_break: [u8; 1] = ['\n' as u8];
            proof {
                let margin = repeat(self.indent@, self.current_indent as nat);
                lemma_truncated_within(before, Seq::empty(), line_break@, whole);
                lemma_truncated_within(before, line_break@, margin, whole);
                lemma_truncated_within(
                    before,
                    line_break@ + margin,
                    seq!['>' as u8, ' ' as u8],
                    whole,
                );
                assert(before + Seq::<u8>::empty() == before);
            }
            writer.write_all(line_break.as_slice())?;
            indent(writer, self.current_indent, self.indent)?;
        }
        let text: [u8; 2] = ['>' as u8, ' ' as u8];
        writer.write_all(text.as_slice())
    }
}

} // verus!
