//! One node of the tree, decoded in a single pass over its tokens.

use crate::children::{find_child, ChildNodeIter};
use crate::properties::{find_property, NodeProperty, PropertyIter};
use crate::text::{decode, first_of, index_of, utf8_failure};
use crate::tokens::{lemma_nops_end, nops_end, read_token, skip_nops, token_at, Tokens};
use crate::wire::{
    advance, find_nul, lemma_nul_at, nul_at, pad_to_word, padded, read_u32, remaining, word_at,
};
use core::str::Utf8Error;
use vstd::prelude::*;
use vstd::slice::slice_subrange;
use vstd::string::StrSliceExecFns;
use vstd::utf8::*;

verus! {

/// Why a node could not be decoded.
#[derive(Debug, Clone, Copy, PartialEq, Eq)]
pub enum ParsingError {
    /// A word of the structure block is none of the five tokens.
    InvalidToken,
    /// The blob ends where a token, a name or a property record should go on.
    MalformedTree,
    /// Another token stands where `expected` must stand.
    UnexpectedToken { expected: Tokens, found: Tokens },
    /// The blob's terminator comes before the node is closed.
    EarlyEnd,
    /// A name is not UTF-8: that of the node, or that of a property where a
    /// property is decoded.
    InvalidUtf8NodeName(Utf8Error),
}

/// What a decoded node records: its name and where its parts lie in the blob.
pub struct NodeView {
    /// The offset of the node's `BeginNode`.
    pub start: int,
    /// The name, with the unit address where it has one.
    pub name: Seq<char>,
    /// The offset of the first property's token.
    pub props: Option<int>,
    /// The offset of the first child's `BeginNode`.
    pub children: Option<int>,
    /// The offset of the strings block.
    pub strings: int,
    /// The offset of the node's own `EndNode`.
    pub end: int,
}

/// The first token after the name of the node that begins at `pos`.
pub open spec fn body_start(bytes: Seq<u8>, pos: int) -> Option<int> {
    match nul_at(bytes, pos + 4) {
        Some(z) => Some(pos + 4 + padded(z - (pos + 4) + 1)),
        None => None,
    }
}

/// The first token after the property record that begins at `pos`.
pub open spec fn property_end(bytes: Seq<u8>, pos: int) -> Option<int> {
    match word_at(bytes, pos + 4) {
        Some(len) => Some(pos + 12 + padded(len as int)),
        None => None,
    }
}

/// The offset of the `EndNode` that closes the node whose body is read from
/// `pos` on, `depth` nested nodes being open there. Properties and whole
/// subtrees are stepped over; the blob's terminator or a word that is no token
/// ends the search with an error.
pub open spec fn node_end(bytes: Seq<u8>, pos: int, depth: nat) -> Result<int, ParsingError>
    decreases remaining(bytes, pos),
    via node_end_decreases
{
    match token_at(bytes, pos) {
        Err(e) => Err(e),
        Ok(Tokens::BeginNode) => match body_start(bytes, pos) {
            Some(next) => node_end(bytes, next, depth + 1),
            None => Err(ParsingError::MalformedTree),
        },
        Ok(Tokens::EndNode) => if depth == 0 {
            Ok(pos)
        } else {
            node_end(bytes, pos + 4, (depth - 1) as nat)
        },
        Ok(Tokens::End) => Err(ParsingError::EarlyEnd),
        Ok(Tokens::Property) => match property_end(bytes, pos) {
            Some(next) => node_end(bytes, next, depth),
            None => Err(ParsingError::MalformedTree),
        },
        Ok(Tokens::Nop) => node_end(bytes, pos + 4, depth),
    }
}

#[via_fn]
proof fn node_end_decreases(bytes: Seq<u8>, pos: int, depth: nat) {
    lemma_nul_at(bytes, pos + 4);
}

/// A body that would begin where no whole word is left is malformed.
pub proof fn lemma_node_end_past(bytes: Seq<u8>, pos: int, depth: nat)
    ensures
        pos + 4 > bytes.len() ==> node_end(bytes, pos, depth) == Err::<int, ParsingError>(
            ParsingError::MalformedTree,
        ),
{
}

/// The run of `Nop` tokens at `pos` ends at or after `pos`, at a token that is
/// no `Nop`.
pub proof fn lemma_nops_from(bytes: Seq<u8>, pos: int)
    ensures
        match nops_end(bytes, pos) {
            Ok(p) => pos <= p && p + 4 <= bytes.len() && 0 <= p,
            Err(_) => true,
        },
{
    lemma_nops_end(bytes, pos);
}

/// A node ends at or after the place its body is read from, at a token.
pub proof fn lemma_node_end_extent(bytes: Seq<u8>, pos: int, depth: nat)
    ensures
        match node_end(bytes, pos, depth) {
            Ok(end) => pos <= end && end + 4 <= bytes.len() && token_at(bytes, end) == Ok::<
                Tokens,
                ParsingError,
            >(Tokens::EndNode),
            Err(_) => true,
        },
    decreases remaining(bytes, pos),
{
    lemma_nul_at(bytes, pos + 4);
    match token_at(bytes, pos) {
        Err(e) => {},
        Ok(Tokens::BeginNode) => {
            if let Some(next) = body_start(bytes, pos) {
                lemma_node_end_extent(bytes, next, depth + 1);
            }
        },
        Ok(Tokens::EndNode) => {
            if depth != 0 {
                lemma_node_end_extent(bytes, pos + 4, (depth - 1) as nat);
            }
        },
        Ok(Tokens::End) => {},
        Ok(Tokens::Property) => {
            if let Some(next) = property_end(bytes, pos) {
                lemma_node_end_extent(bytes, next, depth);
            }
        },
        Ok(Tokens::Nop) => {
            lemma_node_end_extent(bytes, pos + 4, depth);
        },
    }
}

/// The offset of the first `BeginNode` of a body read from `pos` on, with
/// properties and `Nop` tokens stepped over.
pub open spec fn first_child(bytes: Seq<u8>, pos: int) -> Option<int>
    decreases remaining(bytes, pos),
{
    match token_at(bytes, pos) {
        Ok(Tokens::BeginNode) => Some(pos),
        Ok(Tokens::Property) => match property_end(bytes, pos) {
            Some(next) => first_child(bytes, next),
            None => None,
        },
        Ok(Tokens::Nop) => first_child(bytes, pos + 4),
        _ => None,
    }
}

/// What decoding the node at `start` gives.
pub open spec fn spec_parse(bytes: Seq<u8>, start: int, strings: int) -> Result<
    NodeView,
    ParsingError,
> {
    match nops_end(bytes, start) {
        Err(e) => Err(e),
        Ok(begin) => match token_at(bytes, begin) {
            Err(e) => Err(e),
            Ok(Tokens::BeginNode) => match nul_at(bytes, begin + 4) {
                None => Err(ParsingError::MalformedTree),
                Some(z) => {
                    let name = bytes.subrange(begin + 4, z);
                    if !valid_utf8(name) {
                        Err(ParsingError::InvalidUtf8NodeName(utf8_failure(name)))
                    } else {
                        match nops_end(bytes, begin + 4 + padded(z - (begin + 4) + 1)) {
                            Err(e) => Err(e),
                            Ok(body) => match node_end(bytes, body, 0) {
                                Err(e) => Err(e),
                                Ok(end) => Ok(
                                    NodeView {
                                        start: begin,
                                        name: decode_utf8(name),
                                        props: if token_at(bytes, body) == Ok::<
                                            Tokens,
                                            ParsingError,
                                        >(Tokens::Property) {
                                            Some(body)
                                        } else {
                                            None
                                        },
                                        children: first_child(bytes, body),
                                        strings,
                                        end,
                                    },
                                ),
                            },
                        }
                    }
                },
            },
            Ok(found) => Err(
                ParsingError::UnexpectedToken { expected: Tokens::BeginNode, found },
            ),
        },
    }
}

/// A decoded node takes up at least its two tokens and a padded name, all of
/// them inside the blob.
pub proof fn lemma_parse_extent(bytes: Seq<u8>, start: int, strings: int)
    ensures
        match spec_parse(bytes, start, strings) {
            Ok(node) => start <= node.start && node.start + 8 <= node.end && node.end + 4
                <= bytes.len() && node.strings == strings && sound(bytes, node),
            Err(_) => true,
        },
{
    lemma_nops_from(bytes, start);
    if let Ok(begin) = nops_end(bytes, start) {
        lemma_nul_at(bytes, begin + 4);
        if let Some(z) = nul_at(bytes, begin + 4) {
            let after = begin + 4 + padded(z - (begin + 4) + 1);
            lemma_nops_from(bytes, after);
            if let Ok(body) = nops_end(bytes, after) {
                lemma_node_end_extent(bytes, body, 0);
            }
        }
    }
}

/// The part of a full name before its first `@`.
pub open spec fn short_name(full: Seq<char>) -> Seq<char> {
    full.subrange(0, first_of(full, '@', 0))
}

/// The part of a full name after its first `@`, where it has one.
pub open spec fn unit_address(full: Seq<char>) -> Option<Seq<char>> {
    if first_of(full, '@', 0) < full.len() {
        Some(full.subrange(first_of(full, '@', 0) + 1, full.len() as int))
    } else {
        None
    }
}

/// A node of the tree: a cursor into the blob, cheap to copy.
#[derive(Debug, Clone, Copy)]
pub struct DeviceTreeNode<'a> {
    blob: &'a [u8],
    start: usize,
    name: &'a str,
    props: Option<usize>,
    children: Option<usize>,
    strings: usize,
    end: usize,
}

impl<'a> View for DeviceTreeNode<'a> {
    type V = NodeView;

    closed spec fn view(&self) -> NodeView {
        NodeView {
            start: self.start as int,
            name: self.name@,
            props: match self.props {
                Some(p) => Some(p as int),
                None => None,
            },
            children: match self.children {
                Some(c) => Some(c as int),
                None => None,
            },
            strings: self.strings as int,
            end: self.end as int,
        }
    }
}

/// The token after the name of the node that begins at `pos`, the name's
/// terminator having been found at `z`.
fn after_name(blob: &[u8], pos: usize, z: usize) -> (r: Option<usize>)
    requires
        pos + 4 <= z < blob@.len(),
    ensures
        match r {
            Some(next) => next == pos + 4 + padded(z - (pos + 4) + 1) && next + 4 <= blob@.len(),
            None => pos + 4 + padded(z - (pos + 4) + 1) + 4 > blob@.len(),
        },
{
    let len: usize = z - (pos + 4);
    let rest: usize = 3 - len % 4;
    // the terminator and `rest` bytes of padding follow the name
    assert(padded(len + 1) == len + 1 + rest);
    if blob.len() - z < rest + 5 {
        return None;
    }
    Some(z + 1 + rest)
}

/// The token after the property record at `pos`.
fn after_property(blob: &[u8], pos: usize) -> (r: Option<usize>)
    ensures
        match r {
            Some(next) => property_end(blob@, pos as int) == Some(next as int) && next + 4
                <= blob@.len(),
            None => match property_end(blob@, pos as int) {
                Some(next) => next + 4 > blob@.len(),
                None => true,
            },
        },
{
    if pos > blob.len() || blob.len() - pos < 8 {
        return None;
    }
    match read_u32(blob, pos + 4) {
        Some(len) => advance(blob, pos, 12 + pad_to_word(len as u64)),
        None => None,
    }
}

/// Whether `node` is what decoding the blob at the node's own offset gives.
pub open spec fn sound(bytes: Seq<u8>, node: NodeView) -> bool {
    spec_parse(bytes, node.start, node.strings) == Ok::<NodeView, ParsingError>(node)
}

impl<'a> DeviceTreeNode<'a> {
    /// The blob that the node lies in.
    pub closed spec fn blob(&self) -> Seq<u8> {
        self.blob@
    }

    /// Every node is what decoding its blob at its offset gives.
    #[verifier::type_invariant]
    pub open spec fn decoded(&self) -> bool {
        sound(self.blob(), self@)
    }

    /// Decodes the node whose `BeginNode` token is the first token at
    /// `node_start` that is no `Nop`. `str_block` is the offset of the strings
    /// block, which the node's properties take their names from.
    #[verifier::loop_isolation(false)]
    pub fn parse(blob: &'a [u8], node_start: usize, str_block: usize) -> (r: Result<
        DeviceTreeNode<'a>,
        ParsingError,
    >)
        ensures
            match r {
                Ok(node) => node.blob() == blob@ && spec_parse(
                    blob@,
                    node_start as int,
                    str_block as int,
                ) == Ok::<NodeView, ParsingError>(node@),
                Err(e) => spec_parse(blob@, node_start as int, str_block as int) == Err::<
                    NodeView,
                    ParsingError,
                >(e),
            },
    {
        let begin: usize = skip_nops(blob, node_start)?;
        proof {
            lemma_nops_end(blob@, node_start as int);
        }
        let token = read_token(blob, begin)?;
        assert(begin + 4 <= blob@.len() <= usize::MAX);
        match token {
            Tokens::BeginNode => {},
            found => {
                return Err(ParsingError::UnexpectedToken { expected: Tokens::BeginNode, found });
            },
        }
        let z: usize = match find_nul(blob, begin + 4) {
            Some(z) => z,
            None => {
                return Err(ParsingError::MalformedTree);
            },
        };
        proof {
            lemma_nul_at(blob@, begin + 4);
        }
        let name: &'a str = match decode(slice_subrange(blob, begin + 4, z)) {
            Ok(s) => s,
            Err(e) => {
                return Err(ParsingError::InvalidUtf8NodeName(e));
            },
        };
        let after: usize = match after_name(blob, begin, z) {
            Some(p) => p,
            None => {
                return Err(ParsingError::MalformedTree);
            },
        };
        let body: usize = skip_nops(blob, after)?;
        proof {
            lemma_nops_end(blob@, after as int);
        }
        let props: Option<usize> = match read_token(blob, body) {
            Ok(Tokens::Property) => Some(body),
            _ => None,
        };
        let mut children: Option<usize> = None;
        let mut depth: usize = 0;
        let mut curr: usize = body;
        loop
            invariant
                body <= curr,
                curr + 4 <= blob@.len() <= usize::MAX,
                depth * 4 <= curr - body,
                node_end(blob@, body as int, 0) == node_end(blob@, curr as int, depth as nat),
                match children {
                    Some(c) => first_child(blob@, body as int) == Some(c as int),
                    None => depth == 0 && first_child(blob@, body as int) == first_child(
                        blob@,
                        curr as int,
                    ),
                },
            decreases remaining(blob@, curr as int),
        {
            proof {
                lemma_nul_at(blob@, curr + 4);
            }
            let next: Option<usize> = match read_token(blob, curr) {
                Err(e) => {
                    return Err(e);
                },
                Ok(Tokens::BeginNode) => {
                    if children.is_none() {
                        children = Some(curr);
                    }
                    match find_nul(blob, curr + 4) {
                        Some(z) => {
                            depth = depth + 1;
                            proof {
                                lemma_node_end_past(
                                    blob@,
                                    curr + 4 + padded(z - (curr + 4) + 1),
                                    depth as nat,
                                );
                            }
                            after_name(blob, curr, z)
                        },
                        None => {
                            return Err(ParsingError::MalformedTree);
                        },
                    }
                },
                Ok(Tokens::EndNode) => {
                    if depth == 0 {
                        return Ok(
                            DeviceTreeNode {
                                blob,
                                start: begin,
                                name,
                                props,
                                children,
                                strings: str_block,
                                end: curr,
                            },
                        );
                    }
                    depth = depth - 1;
                    proof {
                        lemma_node_end_past(blob@, curr + 4, depth as nat);
                    }
                    advance(blob, curr, 4)
                },
                Ok(Tokens::End) => {
                    return Err(ParsingError::EarlyEnd);
                },
                Ok(Tokens::Property) => {
                    proof {
                        if let Some(next) = property_end(blob@, curr as int) {
                            lemma_node_end_past(blob@, next, depth as nat);
                        }
                    }
                    after_property(blob, curr)
                },
                Ok(Tokens::Nop) => {
                    proof {
                        lemma_node_end_past(blob@, curr + 4, depth as nat);
                    }
                    advance(blob, curr, 4)
                },
            };
            match next {
                Some(p) => {
                    curr = p;
                },
                None => {
                    return Err(ParsingError::MalformedTree);
                },
            }
        }
    }
}

impl<'a> DeviceTreeNode<'a> {
    /// The name as the blob gives it, unit address included.
    pub fn full_name(&self) -> (r: &'a str)
        ensures
            r@ == self@.name,
    {
        self.name
    }

    /// The name without its unit address: what stands before the first `@`.
    pub fn name(&self) -> (r: &'a str)
        ensures
            r@ == short_name(self@.name),
    {
        let i: usize = index_of(self.name, '@', 0);
        self.name.substring_char(0, i)
    }

    /// The unit address: what stands after the first `@`, where there is one.
    pub fn address(&self) -> (r: Option<&'a str>)
        ensures
            match r {
                Some(s) => unit_address(self@.name) == Some(s@),
                None => unit_address(self@.name) is None,
            },
    {
        let i: usize = index_of(self.name, '@', 0);
        let n: usize = self.name.unicode_len();
        if i < n {
            Some(self.name.substring_char(i + 1, n))
        } else {
            None
        }
    }

    /// A cursor over the node's properties, in the order of the blob.
    pub fn properties(&self) -> (r: PropertyIter<'a>)
        ensures
            r.blob() == self.blob(),
            r@.pos == self@.props,
            r@.strings == self@.strings,
    {
        PropertyIter::new(self.blob, self.props, self.strings)
    }

    /// A cursor over the node's children, in the order of the blob.
    pub fn children(&self) -> (r: ChildNodeIter<'a>)
        ensures
            r.blob() == self.blob(),
            r@.pos == self@.children,
            r@.strings == self@.strings,
    {
        ChildNodeIter::new(self.blob, self.children, self.strings)
    }

    /// The first child whose name, without its unit address, is `name`.
    pub fn get_child(&self, name: &str) -> (r: Result<Option<DeviceTreeNode<'a>>, ParsingError>)
        ensures
            match self@.children {
                None => r matches Ok(None),
                Some(pos) => match find_child(self.blob(), pos, self@.strings, name@) {
                    Ok(Some(node)) => r matches Ok(Some(n)) && n@ == node && n.blob()
                        == self.blob(),
                    Ok(None) => r matches Ok(None),
                    Err(e) => r == Err::<Option<DeviceTreeNode<'a>>, ParsingError>(e),
                },
            },
    {
        let mut cursor = self.children();
        cursor.find(name)
    }

    /// The first property called `name`.
    pub fn get_property(&self, name: &str) -> (r: Result<Option<NodeProperty<'a>>, ParsingError>)
        ensures
            match self@.props {
                None => r matches Ok(None),
                Some(pos) => match find_property(self.blob(), pos, self@.strings, name@) {
                    Ok(Some(prop)) => r matches Ok(Some(p)) && p@ == prop,
                    Ok(None) => r matches Ok(None),
                    Err(e) => r == Err::<Option<NodeProperty<'a>>, ParsingError>(e),
                },
            },
    {
        let mut cursor = self.properties();
        cursor.find(name)
    }

    /// The offset of the node's own `EndNode` token.
    pub fn end(&self) -> (r: usize)
        ensures
            r == self@.end,
    {
        self.end
    }
}

} // verus!
