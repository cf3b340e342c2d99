use vstd::prelude::*;

use crate::gecko::{as_spec, DecodeFailure, GeckoCodeConversionError};

verus! {

/// The canonical memory address of a record's tag/address word.
pub open spec fn resolved_address(raw: u32, larger_address: bool) -> u32 {
    let base = (0x8000_0000u32 | (raw & 0x00FF_FFFFu32)) as int;
    if larger_address {
        (base + 0x0100_0000) as u32
    } else {
        base as u32
    }
}

/// A resolved address lies between `0x8000_0000` and `0x81FF_FFFF`.
pub proof fn lemma_resolved_address_bound(raw: u32, larger_address: bool)
    ensures
        0x8000_0000 <= resolved_address(raw, larger_address) <= 0x81FF_FFFF,
{
    let base = 0x8000_0000u32 | (raw & 0x00FF_FFFFu32);
    assert(0x8000_0000u32 <= base <= 0x80FF_FFFFu32) by (bit_vector)
        requires
            base == 0x8000_0000u32 | (raw & 0x00FF_FFFFu32),
    ;
}

/// Maps a raw tag/address word to its address: the low 24 bits, in the
/// console's cached memory region, moved up by `0x0100_0000` when the
/// record's tag carries the larger-address flag.
pub fn resolve(raw: u32, larger_address: bool) -> (r: u32)
    ensures
        r == resolved_address(raw, larger_address),
        r & 0xFF00_0000 == if larger_address { 0x8100_0000u32 } else { 0x8000_0000u32 },
        r & 0x00FF_FFFF == raw & 0x00FF_FFFF,
{
    let address = 0x8000_0000u32 | (raw & 0x00FF_FFFFu32);
    assert(address & 0xFF00_0000 == 0x8000_0000u32 && address & 0x00FF_FFFF == raw & 0x00FF_FFFF
        && address < 0x8100_0000u32 && address >= 0x8000_0000u32) by (bit_vector)
        requires
            address == 0x8000_0000u32 | (raw & 0x00FF_FFFFu32),
    ;
    if larger_address {
        let r = address + 0x0100_0000;
        assert(r & 0xFF00_0000 == 0x8100_0000u32 && r & 0x00FF_FFFF == raw & 0x00FF_FFFF) by (bit_vector)
            requires
                address == 0x8000_0000u32 | (raw & 0x00FF_FFFFu32),
                r == address + 0x0100_0000,
        ;
        r
    } else {
        address
    }
}

/// A reader that walks a sequence of words from the front, one word at a
/// time, never past its end.
pub struct WordCursor<'a> {
    words: &'a [u32],
    pos: usize,
}

impl<'a> WordCursor<'a> {
    #[verifier::type_invariant]
    spec fn inside(&self) -> bool {
        self.pos <= self.words@.len()
    }

    /// The words that the cursor walks.
    pub closed spec fn words(&self) -> Seq<u32> {
        self.words@
    }

    /// How many words have been read.
    pub closed spec fn pos(&self) -> nat {
        self.pos as nat
    }

    /// A cursor at the first of `words`.
    pub fn new(words: &'a [u32]) -> (r: WordCursor<'a>)
        ensures
            r.words() == words@,
            r.pos() == 0,
    {
        WordCursor { words, pos: 0 }
    }

    /// How many words have been read.
    pub fn position(&self) -> (r: usize)
        ensures
            r == self.pos(),
    {
        self.pos
    }

    /// How many words are left to read.
    pub fn remaining(&self) -> (r: usize)
        ensures
            r == self.words().len() - self.pos(),
    {
        proof {
            use_type_invariant(self);
        }
        self.words.len() - self.pos
    }

    /// How many words the cursor walks in all.
    pub fn len(&self) -> (r: usize)
        ensures
            r == self.words().len(),
    {
        self.words.len()
    }

    /// The word at the cursor, which stays where it is; `None` at the end.
    pub fn peek(&self) -> (r: Option<u32>)
        ensures
            self.pos() < self.words().len() ==> r == Some(self.words()[self.pos() as int]),
            self.pos() >= self.words().len() ==> r is None,
    {
        if self.pos < self.words.len() {
            Some(self.words[self.pos])
        } else {
            None
        }
    }

    fn advance(&mut self) -> (r: Option<u32>)
        ensures
            final(self).words() == old(self).words(),
            old(self).pos() < old(self).words().len() ==> r == Some(
                old(self).words()[old(self).pos() as int],
            ) && final(self).pos() == old(self).pos() + 1,
            old(self).pos() >= old(self).words().len() ==> r is None && final(self).pos()
                == old(self).pos(),
    {
        if self.pos < self.words.len() {
            let v = self.words[self.pos];
            self.pos = self.pos + 1;
            Some(v)
        } else {
            None
        }
    }
}

/// Reads the word at the cursor and moves past it: `Truncated` where no
/// word is left, the cursor then staying where it is.
pub fn get_and_seek(cursor: &mut WordCursor) -> (r: Result<u32, GeckoCodeConversionError>)
    ensures
        final(cursor).words() == old(cursor).words(),
        old(cursor).pos() < old(cursor).words().len() ==> as_spec(r) == Ok::<u32, DecodeFailure>(
            old(cursor).words()[old(cursor).pos() as int],
        ) && final(cursor).pos() == old(cursor).pos() + 1,
        old(cursor).pos() >= old(cursor).words().len() ==> as_spec(r) == Err::<u32, DecodeFailure>(
            DecodeFailure::Truncated,
        ) && final(cursor).pos() == old(cursor).pos(),
{
    match cursor.advance() {
        Some(v) => Ok(v),
        None => Err(GeckoCodeConversionError::Truncated),
    }
}

/// Reads a record's tag/address word and resolves it to an address.
pub fn get_code_address(cursor: &mut WordCursor, larger_address: bool) -> (r: Result<
    u32,
    GeckoCodeConversionError,
>)
    ensures
        final(cursor).words() == old(cursor).words(),
        old(cursor).pos() < old(cursor).words().len() ==> as_spec(r) == Ok::<u32, DecodeFailure>(
            resolved_address(old(cursor).words()[old(cursor).pos() as int], larger_address),
        ) && final(cursor).pos() == old(cursor).pos() + 1,
        old(cursor).pos() >= old(cursor).words().len() ==> as_spec(r) == Err::<u32, DecodeFailure>(
            DecodeFailure::Truncated,
        ) && final(cursor).pos() == old(cursor).pos(),
{
    let raw = get_and_seek(cursor)?;
    Ok(resolve(raw, larger_address))
}

} // verus!
