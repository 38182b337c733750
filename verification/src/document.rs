//! The text of a whole document, stated directly from the tree, and what
//! holds of it.

use vstd::prelude::*;
use vstd::utf8::{encode_utf8, is_ascii_chars, valid_utf8};
use crate::formatter::to::{attributes_run, node_run, value_run};
use crate::formatter::Formatter;
use crate::number::is_ascii_bytes;
use crate::NodeView;

pub mod compact;
pub mod pretty;

verus! {

/// Whether the attributes of a node make an attribute block: they do where
/// they are a node whose own value is a map.
pub open spec fn has_block(attributes: Option<Box<NodeView>>) -> bool {
    attributes matches Some(holder) && holder.value is Mapping
}

/// With any formatter, a node whose attributes make no block is rendered as
/// the same value without attributes.
pub proof fn lemma_attributes_passed_over<F: Formatter>(f: F, node: NodeView)
    requires
        !has_block(node.attributes),
    ensures
        node_run(f, node) == node_run(f, NodeView { attributes: None, value: node.value }),
{
}

/// With any formatter, the attribute block of a node stands right before the
/// node's value: the text of the node is the text of the block and then the
/// text of the value, with nothing before, between or after them.
pub proof fn lemma_attributes_first<F: Formatter>(f: F, node: NodeView)
    ensures
        node_run(f, node).text == attributes_run(f, node.attributes).text + value_run(
            attributes_run(f, node.attributes).state,
            node.value,
        ).text,
{
}

/// How often `byte` occurs in `text`.
pub open spec fn count(text: Seq<u8>, byte: u8) -> nat
    decreases text.len(),
{
    if text.len() == 0 {
        0
    } else {
        count(text.drop_last(), byte) + if text.last() == byte {
            1nat
        } else {
            0nat
        }
    }
}

/// Occurrences in two texts add up in their concatenation.
pub proof fn lemma_count_concat(a: Seq<u8>, b: Seq<u8>, byte: u8)
    ensures
        count(a + b, byte) == count(a, byte) + count(b, byte),
    decreases b.len(),
{
    if b.len() == 0 {
        assert(a + b =~= a);
    } else {
        assert((a + b).drop_last() =~= a + b.drop_last());
        lemma_count_concat(a, b.drop_last(), byte);
    }
}

/// Bytes that are all ASCII are valid UTF-8.
pub proof fn lemma_ascii_valid(text: Seq<u8>)
    requires
        is_ascii_bytes(text),
    ensures
        valid_utf8(text),
{
    let chars = Seq::new(text.len(), |i: int| text[i] as char);
    assert(is_ascii_chars(chars));
    vstd::utf8::is_ascii_chars_encode_utf8(chars);
    assert(encode_utf8(chars) =~= text);
    vstd::utf8::encode_utf8_valid_utf8(chars);
}

} // verus!
