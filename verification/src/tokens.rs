//! The token alphabet of the structure block.

use crate::node::ParsingError;
use crate::wire::{read_u32, remaining, word_at};
use vstd::prelude::*;

verus! {

/// A token of the structure block. On the wire each is one big-endian word:
/// 1, 2, 3, 4 and 9, in the order of the variants.
#[derive(Debug, Clone, Copy, PartialEq, Eq)]
pub enum Tokens {
    BeginNode,
    EndNode,
    Property,
    Nop,
    End,
}

/// The token that a word stands for.
pub open spec fn token_of(word: u32) -> Result<Tokens, ParsingError> {
    if word == 1 {
        Ok(Tokens::BeginNode)
    } else if word == 2 {
        Ok(Tokens::EndNode)
    } else if word == 3 {
        Ok(Tokens::Property)
    } else if word == 4 {
        Ok(Tokens::Nop)
    } else if word == 9 {
        Ok(Tokens::End)
    } else {
        Err(ParsingError::InvalidToken)
    }
}

/// The token at `off`. Where the blob ends before the word does, the tree is
/// malformed.
pub open spec fn token_at(bytes: Seq<u8>, off: int) -> Result<Tokens, ParsingError> {
    match word_at(bytes, off) {
        Some(word) => token_of(word),
        None => Err(ParsingError::MalformedTree),
    }
}

/// The offset of the first token at or after `off` that is no `Nop`.
pub open spec fn nops_end(bytes: Seq<u8>, off: int) -> Result<int, ParsingError>
    decreases remaining(bytes, off),
{
    match token_at(bytes, off) {
        Err(e) => Err(e),
        Ok(Tokens::Nop) => nops_end(bytes, off + 4),
        Ok(_) => Ok(off),
    }
}

/// Where `nops_end` stops there is a token, it is no `Nop`, and it lies at or
/// after `off`.
pub proof fn lemma_nops_end(bytes: Seq<u8>, off: int)
    ensures
        match nops_end(bytes, off) {
            Ok(p) => off <= p && token_at(bytes, p) is Ok && token_at(bytes, p) != Ok::<
                Tokens,
                ParsingError,
            >(Tokens::Nop) && nops_end(bytes, p) == Ok::<int, ParsingError>(p),
            Err(_) => true,
        },
    decreases remaining(bytes, off),
{
    if token_at(bytes, off) == Ok::<Tokens, ParsingError>(Tokens::Nop) {
        lemma_nops_end(bytes, off + 4);
    }
}

impl Tokens {
    /// Tells which token a word of the structure block is.
    pub fn try_from(value: u32) -> (r: Result<Tokens, ParsingError>)
        ensures
            r == token_of(value),
    {
        match value {
            1 => Ok(Tokens::BeginNode),
            2 => Ok(Tokens::EndNode),
            3 => Ok(Tokens::Property),
            4 => Ok(Tokens::Nop),
            9 => Ok(Tokens::End),
            _ => Err(ParsingError::InvalidToken),
        }
    }
}

/// Reads the token at `off`.
pub fn read_token(blob: &[u8], off: usize) -> (r: Result<Tokens, ParsingError>)
    ensures
        r == token_at(blob@, off as int),
        blob@.len() <= usize::MAX,
{
    match read_u32(blob, off) {
        Some(word) => Tokens::try_from(word),
        None => Err(ParsingError::MalformedTree),
    }
}

/// Skips the run of `Nop` tokens at `current`.
pub fn skip_nops(blob: &[u8], current: usize) -> (r: Result<usize, ParsingError>)
    ensures
        match r {
            Ok(p) => nops_end(blob@, current as int) == Ok::<int, ParsingError>(p as int),
            Err(e) => nops_end(blob@, current as int) == Err::<int, ParsingError>(e),
        },
{
    let mut curr: usize = current;
    loop
        invariant
            current <= curr,
            nops_end(blob@, current as int) == nops_end(blob@, curr as int),
        decreases remaining(blob@, curr as int),
    {
        match read_token(blob, curr) {
            Err(e) => {
                return Err(e);
            },
            Ok(Tokens::Nop) => {
                curr = curr + 4;
            },
            Ok(_) => {
                return Ok(curr);
            },
        }
    }
}

} // verus!
