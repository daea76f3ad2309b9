//! The properties of a node, decoded one at a time.

use crate::node::{lemma_nops_from, property_end, NodeView, ParsingError};
use crate::text::{decode, same_text, utf8_failure};
use crate::tokens::{nops_end, read_token, skip_nops, token_at, Tokens};
use crate::wire::{advance, find_nul, lemma_nul_at, nul_at, pad_to_word, read_u32, remaining, word_at};
use vstd::prelude::*;
use vstd::slice::slice_subrange;
use vstd::utf8::*;

verus! {

/// A property: its name, taken from the strings block, and its value as it
/// lies in the structure block.
#[derive(Debug, Clone, Copy)]
pub struct NodeProperty<'a> {
    pub name: &'a str,
    pub value: &'a [u8],
}

/// A property as a pair of values.
pub struct PropertyView {
    pub name: Seq<char>,
    pub value: Seq<u8>,
}

impl<'a> View for NodeProperty<'a> {
    type V = PropertyView;

    open spec fn view(&self) -> PropertyView {
        PropertyView { name: self.name@, value: self.value@ }
    }
}

/// The text that a value holds: the characters before its first zero byte.
/// A value without a zero byte, or whose bytes before it are not UTF-8, holds
/// no text.
pub open spec fn string_value(value: Seq<u8>) -> Option<Seq<char>> {
    match nul_at(value, 0) {
        Some(z) => if valid_utf8(value.subrange(0, z)) {
            Some(decode_utf8(value.subrange(0, z)))
        } else {
            None
        },
        None => None,
    }
}

impl<'a> NodeProperty<'a> {
    /// The property's name.
    pub fn name(&self) -> (r: &'a str)
        ensures
            r@ == self@.name,
    {
        self.name
    }

    /// The property's value, byte for byte.
    pub fn raw_value(&self) -> (r: &'a [u8])
        ensures
            r@ == self@.value,
    {
        self.value
    }

    /// The property's value as text, where it is a NUL-terminated UTF-8 string.
    pub fn value_str(&self) -> (r: Option<&'a str>)
        ensures
            match r {
                Some(s) => string_value(self@.value) == Some(s@),
                None => string_value(self@.value) is None,
            },
    {
        let z: usize = match find_nul(self.value, 0) {
            Some(z) => z,
            None => {
                return None;
            },
        };
        proof {
            lemma_nul_at(self.value@, 0);
        }
        match decode(slice_subrange(self.value, 0, z)) {
            Ok(s) => Some(s),
            Err(_) => None,
        }
    }
}

/// What one step of a property cursor at `pos` gives: the property there and
/// the offset of the token after it, or nothing where the first token at
/// `pos` that is no `Nop` is no `Property`.
///
/// The record is malformed where the blob ends before its two header words,
/// or before the token that follows its padded value, or where its name
/// offset leads to no zero byte.
pub open spec fn property_at(bytes: Seq<u8>, pos: int, strings: int) -> Result<
    Option<(PropertyView, int)>,
    ParsingError,
> {
    match nops_end(bytes, pos) {
        Err(e) => Err(e),
        Ok(p) => if token_at(bytes, p) != Ok::<Tokens, ParsingError>(Tokens::Property) {
            Ok(None)
        } else {
            match (property_end(bytes, p), word_at(bytes, p + 8)) {
                (Some(next), Some(name_off)) => if next + 4 > bytes.len() {
                    Err(ParsingError::MalformedTree)
                } else {
                    match nul_at(bytes, strings + name_off) {
                        None => Err(ParsingError::MalformedTree),
                        Some(z) => {
                            let name = bytes.subrange(strings + name_off, z);
                            if !valid_utf8(name) {
                                Err(ParsingError::InvalidUtf8NodeName(utf8_failure(name)))
                            } else {
                                Ok(
                                    Some(
                                        (
                                            PropertyView {
                                                name: decode_utf8(name),
                                                value: bytes.subrange(
                                                    p + 12,
                                                    p + 12 + be_len(bytes, p),
                                                ),
                                            },
                                            next,
                                        ),
                                    ),
                                )
                            }
                        },
                    }
                },
                _ => Err(ParsingError::MalformedTree),
            }
        },
    }
}

/// The length that the property record at `p` gives for its value.
pub open spec fn be_len(bytes: Seq<u8>, p: int) -> int {
    match word_at(bytes, p + 4) {
        Some(len) => len as int,
        None => 0,
    }
}

/// A step that yields a property moves the cursor forward.
pub proof fn lemma_property_at_advances(bytes: Seq<u8>, pos: int, strings: int)
    ensures
        match property_at(bytes, pos, strings) {
            Ok(Some((_, next))) => pos + 12 <= next && next + 4 <= bytes.len(),
            _ => true,
        },
{
    lemma_nops_from(bytes, pos);
}

/// The first property at or after `pos` that is called `name`. A record that
/// cannot be decoded ends the search with its error, unless the property was
/// found before it.
pub open spec fn find_property(bytes: Seq<u8>, pos: int, strings: int, name: Seq<char>) -> Result<
    Option<PropertyView>,
    ParsingError,
>
    decreases remaining(bytes, pos),
    via find_property_decreases
{
    match property_at(bytes, pos, strings) {
        Err(e) => Err(e),
        Ok(None) => Ok(None),
        Ok(Some((prop, next))) => if prop.name == name {
            Ok(Some(prop))
        } else {
            find_property(bytes, next, strings, name)
        },
    }
}

#[via_fn]
proof fn find_property_decreases(bytes: Seq<u8>, pos: int, strings: int, name: Seq<char>) {
    lemma_property_at_advances(bytes, pos, strings);
}

/// All the properties from `pos` on, in the order in which they are declared.
pub open spec fn properties_from(bytes: Seq<u8>, pos: int, strings: int) -> Result<
    Seq<PropertyView>,
    ParsingError,
>
    decreases remaining(bytes, pos),
    via properties_from_decreases
{
    match property_at(bytes, pos, strings) {
        Err(e) => Err(e),
        Ok(None) => Ok(Seq::empty()),
        Ok(Some((prop, next))) => match properties_from(bytes, next, strings) {
            Err(e) => Err(e),
            Ok(rest) => Ok(seq![prop] + rest),
        },
    }
}

#[via_fn]
proof fn properties_from_decreases(bytes: Seq<u8>, pos: int, strings: int) {
    lemma_property_at_advances(bytes, pos, strings);
}

/// The properties of a node, in the order in which they are declared.
pub open spec fn properties_of(bytes: Seq<u8>, node: NodeView) -> Result<
    Seq<PropertyView>,
    ParsingError,
> {
    match node.props {
        Some(pos) => properties_from(bytes, pos, node.strings),
        None => Ok(Seq::empty()),
    }
}

/// Where a cursor stands: at an offset of the blob, or past its last item.
pub struct CursorView {
    pub pos: Option<int>,
    pub strings: int,
}

/// A cursor over a run of properties. It restarts from any stored offset and
/// holds nothing but offsets.
#[derive(Debug, Clone, Copy)]
pub struct PropertyIter<'a> {
    blob: &'a [u8],
    curr: Option<usize>,
    strings: usize,
}

impl<'a> View for PropertyIter<'a> {
    type V = CursorView;

    closed spec fn view(&self) -> CursorView {
        CursorView {
            pos: match self.curr {
                Some(p) => Some(p as int),
                None => None,
            },
            strings: self.strings as int,
        }
    }
}

impl<'a> PropertyIter<'a> {
    /// The blob that the cursor reads.
    pub closed spec fn blob(&self) -> Seq<u8> {
        self.blob@
    }

    /// A cursor at `start`; one that is given no offset yields nothing.
    pub fn new(blob: &'a [u8], start: Option<usize>, str_block: usize) -> (r: PropertyIter<'a>)
        ensures
            r.blob() == blob@,
            r@.strings == str_block,
            match start {
                Some(p) => r@.pos == Some(p as int),
                None => r@.pos is None,
            },
    {
        PropertyIter { blob, curr: start, strings: str_block }
    }

    /// Yields the property at the cursor and moves past it. The cursor is
    /// spent once it has yielded nothing or an error.
    pub fn next(&mut self) -> (r: Result<Option<NodeProperty<'a>>, ParsingError>)
        ensures
            final(self).blob() == old(self).blob(),
            final(self)@.strings == old(self)@.strings,
            match old(self)@.pos {
                None => r matches Ok(None) && final(self)@.pos is None,
                Some(pos) => match property_at(old(self).blob(), pos, old(self)@.strings) {
                    Ok(Some((prop, next))) => r matches Ok(Some(p)) && p@ == prop && final(self)@.pos == Some(next),
                    Ok(None) => r matches Ok(None) && final(self)@.pos is None,
                    Err(e) => r == Err::<Option<NodeProperty<'a>>, ParsingError>(e) && final(self)@.pos is None,
                },
            },
    {
        let blob: &'a [u8] = self.blob;
        let start: usize = match self.curr {
            Some(p) => p,
            None => {
                return Ok(None);
            },
        };
        self.curr = None;
        let p: usize = skip_nops(blob, start)?;
        proof {
            lemma_nops_from(blob@, start as int);
        }
        match read_token(blob, p) {
            Ok(Tokens::Property) => {},
            _ => {
                return Ok(None);
            },
        }
        if blob.len() - p < 12 {
            return Err(ParsingError::MalformedTree);
        }
        let len: u32 = match read_u32(blob, p + 4) {
            Some(w) => w,
            None => {
                return Err(ParsingError::MalformedTree);
            },
        };
        let name_off: u32 = match read_u32(blob, p + 8) {
            Some(w) => w,
            None => {
                return Err(ParsingError::MalformedTree);
            },
        };
        let next: usize = match advance(blob, p, 12 + pad_to_word(len as u64)) {
            Some(n) => n,
            None => {
                return Err(ParsingError::MalformedTree);
            },
        };
        if self.strings > blob.len() || name_off as u64 >= (blob.len() - self.strings) as u64 {
            // the name would begin at or after the end of the blob
            return Err(ParsingError::MalformedTree);
        }
        let name_at: usize = self.strings + name_off as usize;
        let z: usize = match find_nul(blob, name_at) {
            Some(z) => z,
            None => {
                return Err(ParsingError::MalformedTree);
            },
        };
        proof {
            lemma_nul_at(blob@, name_at as int);
        }
        let name: &'a str = match decode(slice_subrange(blob, name_at, z)) {
            Ok(s) => s,
            Err(e) => {
                return Err(ParsingError::InvalidUtf8NodeName(e));
            },
        };
        let value: &'a [u8] = slice_subrange(blob, p + 12, p + 12 + len as usize);
        self.curr = Some(next);
        Ok(Some(NodeProperty { name, value }))
    }

    /// Moves the cursor to the first property called `name` and yields it.
    pub(crate) fn find(&mut self, name: &str) -> (r: Result<Option<NodeProperty<'a>>, ParsingError>)
        ensures
            final(self).blob() == old(self).blob(),
            final(self)@.strings == old(self)@.strings,
            match old(self)@.pos {
                None => r matches Ok(None),
                Some(pos) => match find_property(
                    old(self).blob(),
                    pos,
                    old(self)@.strings,
                    name@,
                ) {
                    Ok(Some(prop)) => r matches Ok(Some(p)) && p@ == prop,
                    Ok(None) => r matches Ok(None),
                    Err(e) => r == Err::<Option<NodeProperty<'a>>, ParsingError>(e),
                },
            },
    {
        loop
            invariant
                self.blob() == old(self).blob(),
                self@.strings == old(self)@.strings,
                match (old(self)@.pos, self@.pos) {
                    (Some(first), Some(pos)) => find_property(
                        self.blob(),
                        first,
                        self@.strings,
                        name@,
                    ) == find_property(self.blob(), pos, self@.strings, name@),
                    (Some(first), None) => false,
                    (None, _) => self@.pos is None,
                },
            decreases
                    match self@.pos {
                        Some(pos) => remaining(self.blob(), pos),
                        None => 0,
                    },
        {
            proof {
                if let Some(pos) = self@.pos {
                    lemma_property_at_advances(self.blob(), pos, self@.strings);
                }
            }
            match self.next() {
                Err(e) => {
                    return Err(e);
                },
                Ok(None) => {
                    return Ok(None);
                },
                Ok(Some(prop)) => {
                    if same_text(prop.name, name) {
                        return Ok(Some(prop));
                    }
                },
            }
        }
    }
}

} // verus!
