//! The children of a node, decoded one at a time.

use crate::node::{
    lemma_nops_from, lemma_parse_extent, short_name, spec_parse, DeviceTreeNode, NodeView,
    ParsingError,
};
use crate::properties::CursorView;
use crate::text::same_text;
use crate::tokens::{nops_end, read_token, skip_nops, token_at, Tokens};
use crate::wire::remaining;
use vstd::prelude::*;

verus! {

/// What one step of a child cursor at `pos` gives: the node there and the
/// offset of the token after its `EndNode`, or nothing where the first token
/// at `pos` that is no `Nop` is no `BeginNode`.
pub open spec fn child_at(bytes: Seq<u8>, pos: int, strings: int) -> Result<
    Option<(NodeView, int)>,
    ParsingError,
> {
    match nops_end(bytes, pos) {
        Err(e) => Err(e),
        Ok(p) => if token_at(bytes, p) != Ok::<Tokens, ParsingError>(Tokens::BeginNode) {
            Ok(None)
        } else {
            match spec_parse(bytes, p, strings) {
                Err(e) => Err(e),
                Ok(node) => Ok(Some((node, node.end + 4))),
            }
        },
    }
}

/// A step that yields a node moves the cursor forward.
pub proof fn lemma_child_at_advances(bytes: Seq<u8>, pos: int, strings: int)
    ensures
        match child_at(bytes, pos, strings) {
            Ok(Some((node, next))) => pos + 12 <= next && next <= bytes.len() && next == node.end
                + 4,
            _ => true,
        },
{
    lemma_nops_from(bytes, pos);
    if let Ok(p) = nops_end(bytes, pos) {
        lemma_parse_extent(bytes, p, strings);
    }
}

/// The first child at or after `pos` whose name, without its unit address, is
/// `name`. A child that cannot be decoded ends the search with its error,
/// unless the child was found before it.
pub open spec fn find_child(bytes: Seq<u8>, pos: int, strings: int, name: Seq<char>) -> Result<
    Option<NodeView>,
    ParsingError,
>
    decreases remaining(bytes, pos),
    via find_child_decreases
{
    match child_at(bytes, pos, strings) {
        Err(e) => Err(e),
        Ok(None) => Ok(None),
        Ok(Some((node, next))) => if short_name(node.name) == name {
            Ok(Some(node))
        } else {
            find_child(bytes, next, strings, name)
        },
    }
}

#[via_fn]
proof fn find_child_decreases(bytes: Seq<u8>, pos: int, strings: int, name: Seq<char>) {
    lemma_child_at_advances(bytes, pos, strings);
}

/// All the children from `pos` on, in the order in which they are declared.
pub open spec fn children_from(bytes: Seq<u8>, pos: int, strings: int) -> Result<
    Seq<NodeView>,
    ParsingError,
>
    decreases remaining(bytes, pos),
    via children_from_decreases
{
    match child_at(bytes, pos, strings) {
        Err(e) => Err(e),
        Ok(None) => Ok(Seq::empty()),
        Ok(Some((node, next))) => match children_from(bytes, next, strings) {
            Err(e) => Err(e),
            Ok(rest) => Ok(seq![node] + rest),
        },
    }
}

#[via_fn]
proof fn children_from_decreases(bytes: Seq<u8>, pos: int, strings: int) {
    lemma_child_at_advances(bytes, pos, strings);
}

/// A cursor over a run of sibling nodes. It restarts from any stored offset
/// and holds nothing but offsets.
#[derive(Debug, Clone, Copy)]
pub struct ChildNodeIter<'a> {
    blob: &'a [u8],
    curr: Option<usize>,
    strings: usize,
}

impl<'a> View for ChildNodeIter<'a> {
    type V = CursorView;

    closed spec fn view(&self) -> CursorView {
        CursorView {
            pos: match self.curr {
                Some(p) => Some(p as int),
                None => None,
            },
            strings: self.strings as int,
        }
    }
}

impl<'a> ChildNodeIter<'a> {
    /// The blob that the cursor reads.
    pub closed spec fn blob(&self) -> Seq<u8> {
        self.blob@
    }

    /// A cursor at `start`; one that is given no offset yields nothing.
    pub fn new(blob: &'a [u8], start: Option<usize>, str_block: usize) -> (r: ChildNodeIter<'a>)
        ensures
            r.blob() == blob@,
            r@.strings == str_block,
            match start {
                Some(p) => r@.pos == Some(p as int),
                None => r@.pos is None,
            },
    {
        ChildNodeIter { blob, curr: start, strings: str_block }
    }

    /// Yields the node at the cursor and moves past its `EndNode`. The cursor
    /// is spent once it has yielded nothing or an error.
    pub fn next(&mut self) -> (r: Result<Option<DeviceTreeNode<'a>>, ParsingError>)
        ensures
            final(self).blob() == old(self).blob(),
            final(self)@.strings == old(self)@.strings,
            match old(self)@.pos {
                None => r matches Ok(None) && final(self)@.pos is None,
                Some(pos) => match child_at(old(self).blob(), pos, old(self)@.strings) {
                    Ok(Some((node, next))) => r matches Ok(Some(n)) && n@ == node && n.blob()
                        == old(self).blob() && final(self)@.pos == Some(next),
                    Ok(None) => r matches Ok(None) && final(self)@.pos is None,
                    Err(e) => r == Err::<Option<DeviceTreeNode<'a>>, ParsingError>(e) && final(self)@.pos
                        is None,
                },
            },
    {
        let blob: &'a [u8] = self.blob;
        let start: usize = match self.curr {
            Some(p) => p,
            None => {
                return Ok(None);
            },
        };
        self.curr = None;
        let p: usize = skip_nops(blob, start)?;
        match read_token(blob, p) {
            Ok(Tokens::BeginNode) => {},
            _ => {
                return Ok(None);
            },
        }
        let node = DeviceTreeNode::parse(blob, p, self.strings)?;
        proof {
            lemma_parse_extent(blob@, p as int, self.strings as int);
        }
        self.curr = Some(node.end() + 4);
        Ok(Some(node))
    }

    /// Moves the cursor to the first node whose name, without its unit
    /// address, is `name`, and yields it.
    pub(crate) fn find(&mut self, name: &str) -> (r: Result<Option<DeviceTreeNode<'a>>, ParsingError>)
        ensures
            final(self).blob() == old(self).blob(),
            final(self)@.strings == old(self)@.strings,
            match old(self)@.pos {
                None => r matches Ok(None),
                Some(pos) => match find_child(old(self).blob(), pos, old(self)@.strings, name@) {
                    Ok(Some(node)) => r matches Ok(Some(n)) && n@ == node && n.blob() == old(self).blob(),
                    Ok(None) => r matches Ok(None),
                    Err(e) => r == Err::<Option<DeviceTreeNode<'a>>, ParsingError>(e),
                },
            },
    {
        loop
            invariant
                self.blob() == old(self).blob(),
                self@.strings == old(self)@.strings,
                match (old(self)@.pos, self@.pos) {
                    (Some(first), Some(pos)) => find_child(
                        self.blob(),
                        first,
                        self@.strings,
                        name@,
                    ) == find_child(self.blob(), pos, self@.strings, name@),
                    (Some(first), None) => false,
                    (None, _) => self@.pos is None,
                },
            decreases
                    match self@.pos {
                        Some(pos) => remaining(self.blob(), pos),
                        None => 0,
                    },
        {
            proof {
                if let Some(pos) = self@.pos {
                    lemma_child_at_advances(self.blob(), pos, self@.strings);
                }
            }
            match self.next() {
                Err(e) => {
                    return Err(e);
                },
                Ok(None) => {
                    return Ok(None);
                },
                Ok(Some(node)) => {
                    if same_text(node.name(), name) {
                        return Ok(Some(node));
                    }
                },
            }
        }
    }
}

} // verus!
