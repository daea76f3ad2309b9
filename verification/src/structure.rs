//! How nodes nest: a child lies wholly inside its parent, and a cursor over
//! the children of a decoded node never leaves it.

use crate::children::{child_at, children_from};
use crate::node::{
    body_start, first_child, lemma_node_end_extent, lemma_nops_from, lemma_parse_extent, node_end,
    property_end, sound, spec_parse, NodeView, ParsingError,
};
use crate::reader::children_of;
use crate::tokens::{lemma_nops_end, nops_end, token_at, Tokens};
use crate::wire::{lemma_nul_at, nul_at, padded, remaining};
use vstd::prelude::*;

verus! {

/// `Nop` tokens change neither where a node ends nor where its first child
/// begins.
pub proof fn lemma_nops_are_skipped(bytes: Seq<u8>, pos: int, depth: nat)
    ensures
        match nops_end(bytes, pos) {
            Ok(p) => node_end(bytes, pos, depth) == node_end(bytes, p, depth) && first_child(
                bytes,
                pos,
            ) == first_child(bytes, p),
            Err(e) => node_end(bytes, pos, depth) == Err::<int, ParsingError>(e),
        },
    decreases remaining(bytes, pos),
{
    if token_at(bytes, pos) == Ok::<Tokens, ParsingError>(Tokens::Nop) {
        lemma_nops_are_skipped(bytes, pos + 4, depth);
    }
}

/// A search that starts with more nodes open follows the same tokens: it
/// fails where the shallower one fails, and where the shallower one ends it
/// goes on behind that `EndNode`, with one node fewer open.
pub proof fn lemma_node_end_deeper(bytes: Seq<u8>, pos: int, depth: nat, extra: nat)
    ensures
        match node_end(bytes, pos, depth) {
            Ok(end) => node_end(bytes, pos, depth + extra + 1) == node_end(bytes, end + 4, extra),
            Err(e) => node_end(bytes, pos, depth + extra + 1) == Err::<int, ParsingError>(e),
        },
    decreases remaining(bytes, pos),
{
    lemma_nul_at(bytes, pos + 4);
    match token_at(bytes, pos) {
        Err(e) => {},
        Ok(Tokens::BeginNode) => {
            if let Some(next) = body_start(bytes, pos) {
                lemma_node_end_deeper(bytes, next, depth + 1, extra);
            }
        },
        Ok(Tokens::EndNode) => {
            if depth != 0 {
                lemma_node_end_deeper(bytes, pos + 4, (depth - 1) as nat, extra);
            }
        },
        Ok(Tokens::End) => {},
        Ok(Tokens::Property) => {
            if let Some(next) = property_end(bytes, pos) {
                lemma_node_end_deeper(bytes, next, depth, extra);
            }
        },
        Ok(Tokens::Nop) => {
            lemma_node_end_deeper(bytes, pos + 4, depth, extra);
        },
    }
}

/// The first child of a body begins at or after the body does, with a
/// `BeginNode`, and the body ends where the part from that child on ends.
pub proof fn lemma_first_child_on_track(bytes: Seq<u8>, pos: int)
    ensures
        match first_child(bytes, pos) {
            Some(c) => pos <= c && token_at(bytes, c) == Ok::<Tokens, ParsingError>(
                Tokens::BeginNode,
            ) && node_end(bytes, pos, 0) == node_end(bytes, c, 0),
            None => true,
        },
    decreases remaining(bytes, pos),
{
    match token_at(bytes, pos) {
        Ok(Tokens::Property) => {
            if let Some(next) = property_end(bytes, pos) {
                lemma_first_child_on_track(bytes, next);
            }
        },
        Ok(Tokens::Nop) => {
            lemma_first_child_on_track(bytes, pos + 4);
        },
        _ => {},
    }
}

/// A cursor that stands inside a node whose `EndNode` is at `end` yields a
/// sound child that lies before `end`, and then stands inside that node
/// still.
pub proof fn lemma_child_on_track(bytes: Seq<u8>, pos: int, strings: int, end: int)
    requires
        node_end(bytes, pos, 0) == Ok::<int, ParsingError>(end),
    ensures
        match child_at(bytes, pos, strings) {
            Ok(Some((child, next))) => sound(bytes, child) && pos <= child.start && child.start
                + 8 <= child.end && next == child.end + 4 && next <= end && node_end(
                bytes,
                next,
                0,
            ) == Ok::<int, ParsingError>(end),
            Ok(None) => true,
            Err(e) => e is InvalidUtf8NodeName,
        },
{
    lemma_nops_are_skipped(bytes, pos, 0);
    lemma_nops_from(bytes, pos);
    let p = nops_end(bytes, pos)->Ok_0;
    if token_at(bytes, p) == Ok::<Tokens, ParsingError>(Tokens::BeginNode) {
        lemma_nops_end(bytes, p);
        lemma_nul_at(bytes, p + 4);
        let z = nul_at(bytes, p + 4)->0;
        let after = p + 4 + padded(z - (p + 4) + 1);
        lemma_nops_are_skipped(bytes, after, 0);
        lemma_nops_are_skipped(bytes, after, 1);
        lemma_node_end_deeper(bytes, after, 0, 0);
        lemma_parse_extent(bytes, p, strings);
        if let Ok(child) = spec_parse(bytes, p, strings) {
            lemma_node_end_extent(bytes, child.end + 4, 0);
        }
    }
}

/// How much of the blob a node takes up, from its `BeginNode` to its
/// `EndNode`.
pub open spec fn weight(node: NodeView) -> nat {
    if node.start <= node.end {
        (node.end - node.start) as nat
    } else {
        0
    }
}

/// How much of the blob the nodes take up together.
pub open spec fn total_weight(nodes: Seq<NodeView>) -> nat
    decreases nodes.len(),
{
    if nodes.len() == 0 {
        0
    } else {
        weight(nodes[0]) + total_weight(nodes.drop_first())
    }
}

/// The weights of two runs of nodes add up.
pub proof fn lemma_total_weight_add(a: Seq<NodeView>, b: Seq<NodeView>)
    ensures
        total_weight(a + b) == total_weight(a) + total_weight(b),
    decreases a.len(),
{
    if a.len() == 0 {
        assert(a + b =~= b);
    } else {
        assert((a + b).drop_first() =~= a.drop_first() + b);
        lemma_total_weight_add(a.drop_first(), b);
    }
}

/// The children that a cursor yields inside a node are sound, and together
/// they fit between the cursor and the node's `EndNode`.
pub proof fn lemma_children_nested(bytes: Seq<u8>, pos: int, strings: int, end: int)
    requires
        node_end(bytes, pos, 0) == Ok::<int, ParsingError>(end),
    ensures
        match children_from(bytes, pos, strings) {
            Ok(nodes) => total_weight(nodes) + 4 * nodes.len() <= end - pos && forall|i: int|
                0 <= i < nodes.len() ==> sound(bytes, #[trigger] nodes[i]),
            Err(e) => e is InvalidUtf8NodeName,
        },
    decreases remaining(bytes, pos),
{
    lemma_child_on_track(bytes, pos, strings, end);
    lemma_node_end_extent(bytes, pos, 0);
    match child_at(bytes, pos, strings) {
        Ok(Some((child, next))) => {
            lemma_children_nested(bytes, next, strings, end);
            match children_from(bytes, next, strings) {
                Ok(rest) => {
                    let nodes = seq![child] + rest;
                    assert(nodes.drop_first() =~= rest);
                    assert(nodes[0] == child);
                    assert forall|i: int| 0 <= i < nodes.len() implies sound(
                        bytes,
                        #[trigger] nodes[i],
                    ) by {
                        if i > 0 {
                            assert(nodes[i] == rest[i - 1]);
                        }
                    }
                },
                Err(_) => {},
            }
        },
        _ => {},
    }
}

/// The children of a sound node are sound, and together they take up less of
/// the blob than the node does.
pub proof fn lemma_children_of_sound(bytes: Seq<u8>, node: NodeView)
    requires
        sound(bytes, node),
    ensures
        match children_of(bytes, node) {
            Ok(nodes) => total_weight(nodes) < weight(node) && forall|i: int|
                0 <= i < nodes.len() ==> sound(bytes, #[trigger] nodes[i]),
            Err(e) => e is InvalidUtf8NodeName,
        },
{
    lemma_parse_extent(bytes, node.start, node.strings);
    lemma_nops_from(bytes, node.start);
    let begin = nops_end(bytes, node.start)->Ok_0;
    lemma_nul_at(bytes, begin + 4);
    let z = nul_at(bytes, begin + 4)->0;
    let after = begin + 4 + padded(z - (begin + 4) + 1);
    lemma_nops_from(bytes, after);
    let body = nops_end(bytes, after)->Ok_0;
    lemma_first_child_on_track(bytes, body);
    match node.children {
        Some(c) => {
            lemma_children_nested(bytes, c, node.strings, node.end);
        },
        None => {},
    }
}

} // verus!
