use vstd::prelude::*;
use vstd::utf8::{decode_utf8, valid_utf8};

use crate::cursor::{
    get_and_seek, get_code_address, lemma_resolved_address_bound, resolved_address, WordCursor,
};
use crate::ppc::{code_to_instruction, word_text};
use crate::text::{dec_digits, hex8, hex_digits, push_dec, push_hex, push_hex8};

verus! {

/// Why a code could not be decoded.
#[derive(Debug)]
pub enum GeckoCodeConversionError {
    /// A record's tag is not one that the decoder supports; `line_number`
    /// counts word pairs from 1, `value` is the record's first word.
    InvalidType { line_number: usize, value: u32 },
    /// The code has an odd number of words.
    Malformed,
    /// The code has no words.
    Empty,
    /// A supported record holds a field value outside its range.
    ParseError { reason: String },
    /// A record needs more words than the code has left.
    Truncated,
}

/// What an error says, as a value that contracts can compare.
pub enum DecodeFailure {
    InvalidType { line_number: usize, value: u32 },
    Malformed,
    Empty,
    ParseError { reason: Seq<char> },
    Truncated,
}

impl View for GeckoCodeConversionError {
    type V = DecodeFailure;

    open spec fn view(&self) -> DecodeFailure {
        match self {
            GeckoCodeConversionError::InvalidType { line_number, value } => DecodeFailure::InvalidType {
                line_number: *line_number,
                value: *value,
            },
            GeckoCodeConversionError::Malformed => DecodeFailure::Malformed,
            GeckoCodeConversionError::Empty => DecodeFailure::Empty,
            GeckoCodeConversionError::ParseError { reason } => DecodeFailure::ParseError {
                reason: reason@,
            },
            GeckoCodeConversionError::Truncated => DecodeFailure::Truncated,
        }
    }
}

/// The message that describes a failure.
pub open spec fn failure_message(f: DecodeFailure) -> Seq<char> {
    match f {
        DecodeFailure::InvalidType { line_number, value } => "Invalid gecko code type. Line number: "@
            + dec_digits(line_number as nat) + ", found value: "@ + hex8(value),
        DecodeFailure::Malformed => "Malformed gecko code"@,
        DecodeFailure::Empty => "Empty gecko code"@,
        DecodeFailure::ParseError { reason } => "Failed to parse gecko code. "@ + reason,
        DecodeFailure::Truncated => "Gecko code ends inside a record"@,
    }
}

impl GeckoCodeConversionError {
    /// The message that describes the error.
    pub fn message(&self) -> (r: String)
        ensures
            r@ == failure_message(self@),
    {
        match self {
            GeckoCodeConversionError::InvalidType { line_number, value } => {
                let mut s = String::from_str("Invalid gecko code type. Line number: ");
                push_dec(&mut s, *line_number as u64);
                s.append(", found value: ");
                push_hex8(&mut s, *value);
                s
            },
            GeckoCodeConversionError::Malformed => String::from_str("Malformed gecko code"),
            GeckoCodeConversionError::Empty => String::from_str("Empty gecko code"),
            GeckoCodeConversionError::ParseError { reason } => {
                let mut s = String::from_str("Failed to parse gecko code. ");
                s.append(reason.as_str());
                s
            },
            GeckoCodeConversionError::Truncated => String::from_str("Gecko code ends inside a record"),
        }
    }
}

/// A result with its error replaced by what the error says.
pub open spec fn as_spec<T>(r: Result<T, GeckoCodeConversionError>) -> Result<T, DecodeFailure> {
    match r {
        Ok(v) => Ok(v),
        Err(e) => Err(e@),
    }
}

/// What decoding one record gives: its text and the position after it, or
/// a failure.
pub type Outcome = Result<(Seq<char>, int), DecodeFailure>;

/// What a record decoder returned, with the cursor's position after it.
pub open spec fn outcome(r: Result<String, GeckoCodeConversionError>, pos: nat) -> Outcome {
    match r {
        Ok(s) => Ok((s@, pos as int)),
        Err(e) => Err(e@),
    }
}

/// Byte `k` (0 to 3, most significant first) of a word.
pub open spec fn word_byte(v: u32, k: int) -> u8 {
    if k == 0 {
        ((v >> 24u32) & 0xFFu32) as u8
    } else if k == 1 {
        ((v >> 16u32) & 0xFFu32) as u8
    } else if k == 2 {
        ((v >> 8u32) & 0xFFu32) as u8
    } else {
        (v & 0xFFu32) as u8
    }
}

/// The first `n` bytes of the words from `start` on, each word big-endian.
pub open spec fn packed_bytes(w: Seq<u32>, start: int, n: nat) -> Seq<u8> {
    Seq::new(n, |i: int| word_byte(w[start + i / 4], i % 4))
}

/// How many words `n` bytes fill.
pub open spec fn words_for_bytes(n: nat) -> nat {
    n / 4 + if n % 4 != 0 {
        1nat
    } else {
        0nat
    }
}

/// Whether the bytes end in their only zero byte.
pub open spec fn ends_in_sole_zero(b: Seq<u8>) -> bool {
    b.len() > 0 && b.last() == 0 && forall|i: int| 0 <= i < b.len() - 1 ==> b[i] != 0
}

/// One entry of the byte list: a new line before every eighth, then the
/// byte, then a comma or, after the last, the closing bracket.
pub open spec fn byte_item(b: Seq<u8>, i: int) -> Seq<char> {
    (if i != 0 && i % 8 == 0 {
        "\n// "@
    } else {
        seq![]
    }) + "0x"@ + hex_digits(b[i] as nat, 2) + if i == b.len() - 1 {
        "]"@
    } else {
        ", "@
    }
}

/// The entries of the first `k` bytes.
pub open spec fn byte_list(b: Seq<u8>, k: nat) -> Seq<char>
    decreases k,
{
    if k == 0 {
        seq![]
    } else {
        byte_list(b, (k - 1) as nat) + byte_item(b, k - 1)
    }
}

/// How a string write shows its bytes: as a quoted string where they end in
/// their only zero byte and are valid UTF-8, else as a list of bytes.
pub open spec fn contents_text(b: Seq<u8>) -> Seq<char> {
    if ends_in_sole_zero(b) && valid_utf8(b) {
        "// String contents: \""@ + decode_utf8(b) + "\"\n"@
    } else {
        "// Byte contents:\n// ["@ + byte_list(b, b.len())
    }
}

/// Relies on std::str::from_utf8: it accepts exactly the valid UTF-8
/// byte sequences, and the text it returns holds the characters they encode.
#[verifier::external_body]
fn utf8_text(bytes: &[u8]) -> (r: Option<&str>)
    ensures
        match r {
            Some(t) => valid_utf8(bytes@) && t@ == decode_utf8(bytes@),
            None => !valid_utf8(bytes@),
        },
{
    std::str::from_utf8(bytes).ok()
}

/// Shows the bytes of a string write: a quoted string where they end in
/// their only zero byte and are valid UTF-8, else the bytes in hexadecimal,
/// eight to a line.
pub fn render_string_bytes(bytes: &Vec<u8>) -> (r: String)
    ensures
        r@ == contents_text(bytes@),
{
    let n = bytes.len();
    let mut i: usize = 0;
    if n > 0 && bytes[n - 1] == 0 {
        while i < n - 1 && bytes[i] != 0
            invariant
                n == bytes@.len(),
                n > 0,
                i <= n - 1,
                forall|j: int| 0 <= j < i ==> bytes@[j] != 0,
            decreases n - i,
        {
            i = i + 1;
        }
        if i == n - 1 {
            match utf8_text(bytes.as_slice()) {
                Some(t) => {
                    let mut s = String::from_str("// String contents: \"");
                    s.append(t);
                    s.append("\"\n");
                    return s;
                },
                None => {},
            }
        }
    }
    let mut s = String::from_str("// Byte contents:\n// [");
    let ghost head = s@;
    let mut k: usize = 0;
    while k < n
        invariant
            n == bytes@.len(),
            k <= n,
            s@ == head + byte_list(bytes@, k as nat),
        decreases n - k,
    {
        let ghost before = s@;
        if k != 0 && k % 8 == 0 {
            s.append("\n// ");
        }
        s.append("0x");
        push_hex(&mut s, bytes[k] as u32, 2);
        if k == n - 1 {
            s.append("]");
        } else {
            s.append(", ");
        }
        assert(s@ =~= before + byte_item(bytes@, k as int));
        k = k + 1;
    }
    s
}

/// A string write at `p`: the address word, the byte count `n`, then `n`
/// bytes packed into the following words.
pub open spec fn string_write(w: Seq<u32>, p: int, larger_address: bool) -> Outcome {
    if p + 2 > w.len() {
        Err(DecodeFailure::Truncated)
    } else {
        let n = w[p + 1] as nat;
        let end = p + 2 + words_for_bytes(n);
        if end > w.len() {
            Err(DecodeFailure::Truncated)
        } else {
            Ok(
                (
                    "// - String RAM Write - \n"@ + "// Target address: "@ + hex8(
                        resolved_address(w[p], larger_address),
                    ) + "\n"@ + contents_text(packed_bytes(w, p + 2, n)),
                    end,
                ),
            )
        }
    }
}

fn byte_of(v: u32, k: usize) -> (r: u8)
    requires
        k < 4,
    ensures
        r == word_byte(v, k as int),
{
    if k == 0 {
        ((v >> 24u32) & 0xFFu32) as u8
    } else if k == 1 {
        ((v >> 16u32) & 0xFFu32) as u8
    } else if k == 2 {
        ((v >> 8u32) & 0xFFu32) as u8
    } else {
        (v & 0xFFu32) as u8
    }
}

/// Decodes a string write (tag `0x06`): the bytes that it writes at its
/// address.
pub fn from_06(cursor: &mut WordCursor, larger_address: bool) -> (r: Result<
    String,
    GeckoCodeConversionError,
>)
    ensures
        final(cursor).words() == old(cursor).words(),
        outcome(r, final(cursor).pos()) == string_write(
            old(cursor).words(),
            old(cursor).pos() as int,
            larger_address,
        ),
{
    let ghost w = cursor.words();
    let ghost p = cursor.pos() as int;
    let address = get_code_address(cursor, larger_address)?;
    let num_bytes = get_and_seek(cursor)?;
    let num_words: u32 = num_bytes / 4 + if num_bytes % 4 != 0 {
        1u32
    } else {
        0u32
    };
    if num_words as usize > cursor.remaining() {
        return Err(GeckoCodeConversionError::Truncated);
    }
    assert(cursor.pos() == p + 2);
    assert(p + 2 + num_words <= w.len());
    let mut data: Vec<u32> = Vec::new();
    let mut j: u32 = 0;
    while j < num_words
        invariant
            cursor.words() == w,
            cursor.pos() == p + 2 + j,
            0 <= p,
            p + 2 + num_words <= w.len(),
            j <= num_words,
            data@ == w.subrange(p + 2, p + 2 + j),
        decreases num_words - j,
    {
        let v = get_and_seek(cursor)?;
        assert(v == w[p + 2 + j]);
        data.push(v);
        assert(data@ =~= w.subrange(p + 2, p + 2 + j + 1));
        j = j + 1;
    }
    assert(num_words == words_for_bytes(num_bytes as nat));
    assert(data@.len() == num_words);
    let n = num_bytes as usize;
    let mut bytes: Vec<u8> = Vec::new();
    let mut i: usize = 0;
    while i < n
        invariant
            n == num_bytes,
            num_words == words_for_bytes(n as nat),
            data@ == w.subrange(p + 2, p + 2 + num_words),
            0 <= p,
            p + 2 + num_words <= w.len(),
            i <= n,
            bytes@ == packed_bytes(w, p + 2, i as nat),
        decreases n - i,
    {
        assert(i / 4 < num_words) by (nonlinear_arith)
            requires
                i < n,
                num_words == n / 4 + if n % 4 != 0 {
                    1int
                } else {
                    0int
                },
        ;
        bytes.push(byte_of(data[i / 4], i % 4));
        i = i + 1;
        assert(bytes@ =~= packed_bytes(w, p + 2, i as nat));
    }
    let mut s = String::from_str("// - String RAM Write - \n");
    s.append("// Target address: ");
    push_hex8(&mut s, address);
    s.append("\n");
    let contents = render_string_bytes(&bytes);
    s.append(contents.as_str());
    Ok(s)
}

/// A 16-bit fill at `p`: the address word, then the count (high half) and
/// the value (low half); the fill covers `address` to `address + count + 1`.
pub open spec fn fill_16(w: Seq<u32>, p: int, larger_address: bool) -> Outcome {
    if p + 2 > w.len() {
        Err(DecodeFailure::Truncated)
    } else {
        let address = resolved_address(w[p], larger_address);
        let count = w[p + 1] >> 16u32;
        let value = w[p + 1] & 0xFFFFu32;
        Ok(
            (
                "// - Constant 16-bit RAM Fill -\n"@ + "// Range: "@ + hex8(address) + " to "@ + hex8(
                    (address + count + 1) as u32,
                ) + "\n"@ + "// Value: 0x"@ + hex_digits(value as nat, 4),
                p + 2,
            ),
        )
    }
}

/// Decodes a 16-bit fill (tags `0x02` and `0x03`).
pub fn from_02(cursor: &mut WordCursor, larger_address: bool) -> (r: Result<
    String,
    GeckoCodeConversionError,
>)
    ensures
        final(cursor).words() == old(cursor).words(),
        outcome(r, final(cursor).pos()) == fill_16(
            old(cursor).words(),
            old(cursor).pos() as int,
            larger_address,
        ),
{
    let mut s = String::from_str("// - Constant 16-bit RAM Fill -\n");
    proof {
        if old(cursor).pos() < old(cursor).words().len() {
            lemma_resolved_address_bound(
                old(cursor).words()[old(cursor).pos() as int],
                larger_address,
            );
        }
    }
    let address = get_code_address(cursor, larger_address)?;
    let temp = get_and_seek(cursor)?;
    let count = temp >> 16u32;
    let value = temp & 0xFFFFu32;
    assert(count < 0x10000) by (bit_vector)
        requires
            count == temp >> 16u32,
    ;
    s.append("// Range: ");
    push_hex8(&mut s, address);
    s.append(" to ");
    push_hex8(&mut s, address + count + 1);
    s.append("\n");
    s.append("// Value: 0x");
    push_hex(&mut s, value, 4);
    Ok(s)
}

/// A 32-bit write at `p`: the address word, then the value.
pub open spec fn write_32(w: Seq<u32>, p: int, larger_address: bool) -> Outcome {
    if p + 2 > w.len() {
        Err(DecodeFailure::Truncated)
    } else {
        Ok(
            (
                "// - Constant 32-bit RAM Write -\n"@ + "// Target address: "@ + hex8(
                    resolved_address(w[p], larger_address),
                ) + "\n"@ + "// Value: "@ + hex8(w[p + 1]),
                p + 2,
            ),
        )
    }
}

/// Decodes a 32-bit write (tags `0x04` and `0x05`).
pub fn from_04(cursor: &mut WordCursor, larger_address: bool) -> (r: Result<
    String,
    GeckoCodeConversionError,
>)
    ensures
        final(cursor).words() == old(cursor).words(),
        outcome(r, final(cursor).pos()) == write_32(
            old(cursor).words(),
            old(cursor).pos() as int,
            larger_address,
        ),
{
    let mut s = String::from_str("// - Constant 32-bit RAM Write -\n");
    let address = get_code_address(cursor, larger_address)?;
    s.append("// Target address: ");
    push_hex8(&mut s, address);
    s.append("\n");
    let value = get_and_seek(cursor)?;
    s.append("// Value: ");
    push_hex8(&mut s, value);
    Ok(s)
}

/// Setting a Gecko register at `p`: the register in the low byte of the
/// first word, then the value.
pub open spec fn set_register(w: Seq<u32>, p: int) -> Outcome {
    if p + 2 > w.len() {
        Err(DecodeFailure::Truncated)
    } else {
        Ok(
            (
                "// gr"@ + dec_digits((w[p] & 0xFFu32) as nat) + " = "@ + hex8(w[p + 1]),
                p + 2,
            ),
        )
    }
}

/// Decodes setting a Gecko register (tag `0x80`).
pub fn from_80(cursor: &mut WordCursor) -> (r: Result<String, GeckoCodeConversionError>)
    ensures
        final(cursor).words() == old(cursor).words(),
        outcome(r, final(cursor).pos()) == set_register(
            old(cursor).words(),
            old(cursor).pos() as int,
        ),
{
    let register = get_and_seek(cursor)? & 0xFFu32;
    let value = get_and_seek(cursor)?;
    let mut s = String::from_str("// gr");
    push_dec(&mut s, register as u64);
    s.append(" = ");
    push_hex8(&mut s, value);
    Ok(s)
}

/// Loading into a Gecko register at `p`: the register in the low byte of
/// the first word, then the value.
pub open spec fn load_register(w: Seq<u32>, p: int) -> Outcome {
    if p + 2 > w.len() {
        Err(DecodeFailure::Truncated)
    } else {
        Ok(
            (
                "// - Load value "@ + hex8(w[p + 1]) + " into register "@ + dec_digits(
                    (w[p] & 0xFFu32) as nat,
                ),
                p + 2,
            ),
        )
    }
}

/// Decodes loading into a Gecko register (tag `0x82`).
pub fn from_82(cursor: &mut WordCursor) -> (r: Result<String, GeckoCodeConversionError>)
    ensures
        final(cursor).words() == old(cursor).words(),
        outcome(r, final(cursor).pos()) == load_register(
            old(cursor).words(),
            old(cursor).pos() as int,
        ),
{
    let register = get_and_seek(cursor)? & 0xFFu32;
    let value = get_and_seek(cursor)?;
    let mut s = String::from_str("// - Load value ");
    push_hex8(&mut s, value);
    s.append(" into register ");
    push_dec(&mut s, register as u64);
    Ok(s)
}

/// A branch at `p`: the address word, then the branch target.
pub open spec fn create_branch(w: Seq<u32>, p: int, larger_address: bool) -> Outcome {
    if p + 2 > w.len() {
        Err(DecodeFailure::Truncated)
    } else {
        Ok(
            (
                "// - Create a Branch -\n"@ + "// Target address: "@ + hex8(
                    resolved_address(w[p], larger_address),
                ) + "\n"@ + "// Branch to: "@ + hex8(w[p + 1]) + "\n"@,
                p + 2,
            ),
        )
    }
}

/// Decodes creating a branch (tags `0xC6` and `0xC7`).
pub fn from_c6(cursor: &mut WordCursor, larger_address: bool) -> (r: Result<
    String,
    GeckoCodeConversionError,
>)
    ensures
        final(cursor).words() == old(cursor).words(),
        outcome(r, final(cursor).pos()) == create_branch(
            old(cursor).words(),
            old(cursor).pos() as int,
            larger_address,
        ),
{
    let mut s = String::from_str("// - Create a Branch -\n");
    let address = get_code_address(cursor, larger_address)?;
    s.append("// Target address: ");
    push_hex8(&mut s, address);
    s.append("\n");
    let target = get_and_seek(cursor)?;
    s.append("// Branch to: ");
    push_hex8(&mut s, target);
    s.append("\n");
    Ok(s)
}

/// The size in bytes that a store's size selector stands for.
pub open spec fn element_size(selector: u32) -> nat {
    if selector == 0 {
        1
    } else if selector == 1 {
        2
    } else {
        4
    }
}

/// Storing a Gecko register at `p`. The first word holds the tag, the size
/// selector (bits 20 to 23: 0, 1 or 2 for 1, 2 or 4 bytes; any other value
/// is refused), the address mode (bits 16 to 19 of a `0x84` store: 1 for
/// the address plus the base address, any other value for the address
/// alone), the number of values less one (bits 4
/// to 15) and the register (bits 0 to 3); the second word is the address.
pub open spec fn store_register(w: Seq<u32>, p: int) -> Outcome {
    if p + 1 > w.len() {
        Err(DecodeFailure::Truncated)
    } else {
        let code = w[p];
        let selector = (code >> 20u32) & 0xFu32;
        let mode = (code >> 16u32) & 0xFu32;
        let tag = code >> 24u32;
        if selector > 2 {
            Err(DecodeFailure::ParseError { reason: SIZE_SELECTOR_REASON@ })
        } else if p + 2 > w.len() {
            Err(DecodeFailure::Truncated)
        } else if tag != 0x84 && tag != 0x94 {
            Err(DecodeFailure::ParseError { reason: STORE_TAG_REASON@ })
        } else {
            let offset = if tag == 0x94 {
                " + po"@
            } else if mode == 1 {
                " + ba"@
            } else {
                seq![]
            };
            Ok(
                (
                    "// - Store register "@ + dec_digits((code & 0xFu32) as nat)
                        + " starting at address "@ + hex8(w[p + 1]) + offset + " with "@
                        + dec_digits((((code >> 4u32) & 0xFFFu32) + 1) as nat)
                        + " consecutive written "@ + dec_digits(element_size(selector))
                        + "-byte values -"@,
                    p + 2,
                ),
            )
        }
    }
}

/// Why a store's size selector is refused.
pub const SIZE_SELECTOR_REASON: &'static str =
    "Invalid T type. Must be 0 (1 byte), 1 (2 bytes), or 2 (4 bytes).";

/// Why a store with another tag is refused.
pub const STORE_TAG_REASON: &'static str = "Unsupported store register code type.";

/// Decodes storing a Gecko register (tags `0x84` and `0x94`).
pub fn from_84_94(cursor: &mut WordCursor) -> (r: Result<String, GeckoCodeConversionError>)
    ensures
        final(cursor).words() == old(cursor).words(),
        outcome(r, final(cursor).pos()) == store_register(
            old(cursor).words(),
            old(cursor).pos() as int,
        ),
{
    let code = get_and_seek(cursor)?;
    let tag = code >> 24u32;
    let selector = (code >> 20u32) & 0xFu32;
    let mode = (code >> 16u32) & 0xFu32;
    let value_size: u64 = if selector == 0 {
        1
    } else if selector == 1 {
        2
    } else if selector == 2 {
        4
    } else {
        return Err(
            GeckoCodeConversionError::ParseError { reason: String::from_str(SIZE_SELECTOR_REASON) },
        );
    };
    let count = ((code >> 4u32) & 0xFFFu32) as u64 + 1;
    let register = code & 0xFu32;
    let address = get_and_seek(cursor)?;
    let mut s = String::from_str("// - Store register ");
    push_dec(&mut s, register as u64);
    s.append(" starting at address ");
    push_hex8(&mut s, address);
    if tag == 0x94 {
        s.append(" + po");
    } else if tag == 0x84 {
        if mode == 1 {
            s.append(" + ba");
        }
    } else {
        return Err(
            GeckoCodeConversionError::ParseError { reason: String::from_str(STORE_TAG_REASON) },
        );
    }
    s.append(" with ");
    push_dec(&mut s, count);
    s.append(" consecutive written ");
    push_dec(&mut s, value_size);
    s.append("-byte values -");
    Ok(s)
}

/// `blr`, the word that closes an execute-assembly block.
pub const BLR_WORD: u32 = 0x4E80_0020;

/// `nop`, the word that pads an insert-assembly block before its closing
/// zero word.
pub const NOP_WORD: u32 = 0x6000_0000;

/// An outcome with `t` put before its text.
pub open spec fn prepend(t: Seq<char>, o: Outcome) -> Outcome {
    match o {
        Ok((u, q)) => Ok((t + u, q)),
        Err(e) => Err(e),
    }
}

proof fn lemma_prepend_twice(a: Seq<char>, b: Seq<char>, o: Outcome)
    ensures
        prepend(a, prepend(b, o)) == prepend(a + b, o),
{
    if let Ok((u, q)) = o {
        assert(a + (b + u) =~= (a + b) + u);
    }
}

/// The body of an execute-assembly block from `p`: up to `lines` pairs of
/// instruction words, each shown as text, the block closing at the first
/// `blr` in either place of a pair.
pub open spec fn execute_lines(w: Seq<u32>, p: int, lines: nat) -> Outcome
    decreases lines,
{
    if lines == 0 {
        Ok((seq![], p))
    } else if p + 2 > w.len() {
        Err(DecodeFailure::Truncated)
    } else if w[p] == BLR_WORD {
        Ok(("blr\n"@, p + 2))
    } else if w[p + 1] == BLR_WORD {
        Ok((word_text(w[p]) + "\n"@ + "blr\n"@, p + 2))
    } else {
        prepend(
            word_text(w[p]) + "\n"@ + word_text(w[p + 1]) + "\n"@,
            execute_lines(w, p + 2, (lines - 1) as nat),
        )
    }
}

/// An execute-assembly block at `p`: the address word, the number of
/// lines, then the lines.
pub open spec fn execute_assembly(w: Seq<u32>, p: int) -> Outcome {
    if p + 2 > w.len() {
        Err(DecodeFailure::Truncated)
    } else {
        prepend(
            "// - Execute Assembly - \n"@ + "// Target address: "@ + hex8(
                resolved_address(w[p], false),
            ) + "\n\n"@,
            execute_lines(w, p + 2, w[p + 1] as nat),
        )
    }
}

/// Decodes an execute-assembly block (tag `0xC0`).
pub fn from_c0(cursor: &mut WordCursor) -> (r: Result<String, GeckoCodeConversionError>)
    ensures
        final(cursor).words() == old(cursor).words(),
        outcome(r, final(cursor).pos()) == execute_assembly(
            old(cursor).words(),
            old(cursor).pos() as int,
        ),
{
    let ghost w = cursor.words();
    let ghost target = execute_assembly(w, cursor.pos() as int);
    let mut s = String::from_str("// - Execute Assembly - \n");
    let address = get_code_address(cursor, false)?;
    s.append("// Target address: ");
    push_hex8(&mut s, address);
    s.append("\n\n");
    let num_lines = get_and_seek(cursor)?;
    let mut i: u32 = 0;
    while i < num_lines
        invariant
            cursor.words() == w,
            w == old(cursor).words(),
            target == execute_assembly(old(cursor).words(), old(cursor).pos() as int),
            i <= num_lines,
            target == prepend(s@, execute_lines(w, cursor.pos() as int, (num_lines - i) as nat)),
        decreases num_lines - i,
    {
        let ghost p = cursor.pos() as int;
        let ghost before = s@;
        let left = get_and_seek(cursor)?;
        let right = get_and_seek(cursor)?;
        if left == BLR_WORD {
            s.append("blr\n");
            proof {
                lemma_prepend_twice(before, "blr\n"@, Ok((seq![], p + 2)));
                assert("blr\n"@ + seq![] =~= "blr\n"@);
            }
            return Ok(s);
        }
        let left_text = code_to_instruction(left);
        s.append(left_text.as_str());
        s.append("\n");
        if right == BLR_WORD {
            s.append("blr\n");
            proof {
                assert(s@ =~= before + (word_text(left) + "\n"@ + "blr\n"@));
            }
            return Ok(s);
        }
        let right_text = code_to_instruction(right);
        s.append(right_text.as_str());
        s.append("\n");
        proof {
            let step = word_text(left) + "\n"@ + word_text(right) + "\n"@;
            assert(s@ =~= before + step);
            lemma_prepend_twice(
                before,
                step,
                execute_lines(w, p + 2, (num_lines - i - 1) as nat),
            );
        }
        i = i + 1;
    }
    proof {
        assert(s@ + seq![] =~= s@);
    }
    Ok(s)
}

/// The body of an insert-assembly block from `p`: pairs of instruction
/// words up to the end of the code, each shown as text. The block closes at
/// a pair of `nop` and zero, shown as nothing, or at a pair whose second
/// word is `nop`, of which the first is shown: codes in use follow either
/// convention.
pub open spec fn insert_lines(w: Seq<u32>, p: int) -> Outcome
    decreases w.len() - p,
{
    if p >= w.len() {
        Ok((seq![], p))
    } else if p + 2 > w.len() {
        Err(DecodeFailure::Truncated)
    } else if w[p] == NOP_WORD && w[p + 1] == 0 {
        Ok((seq![], p + 2))
    } else if w[p + 1] == NOP_WORD {
        Ok((word_text(w[p]) + "\n"@, p + 2))
    } else {
        prepend(word_text(w[p]) + "\n"@ + word_text(w[p + 1]) + "\n"@, insert_lines(w, p + 2))
    }
}

/// An insert-assembly block at `p`: the address word, a line count that is
/// read and not relied on, then the lines.
pub open spec fn insert_assembly(w: Seq<u32>, p: int, larger_address: bool) -> Outcome {
    if p + 2 > w.len() {
        Err(DecodeFailure::Truncated)
    } else {
        prepend(
            "// - Insert Assembly -\n"@ + "// Target address: "@ + hex8(
                resolved_address(w[p], larger_address),
            ) + "\n\n"@,
            insert_lines(w, p + 2),
        )
    }
}

/// Decodes an insert-assembly block (tags `0xC2` and `0xC3`).
pub fn from_c2(cursor: &mut WordCursor, larger_address: bool) -> (r: Result<
    String,
    GeckoCodeConversionError,
>)
    ensures
        final(cursor).words() == old(cursor).words(),
        outcome(r, final(cursor).pos()) == insert_assembly(
            old(cursor).words(),
            old(cursor).pos() as int,
            larger_address,
        ),
{
    let ghost w = cursor.words();
    let ghost target = insert_assembly(w, cursor.pos() as int, larger_address);
    let mut s = String::from_str("// - Insert Assembly -\n");
    let address = get_code_address(cursor, larger_address)?;
    s.append("// Target address: ");
    push_hex8(&mut s, address);
    s.append("\n\n");
    let _num_lines = get_and_seek(cursor)?;
    let len = cursor.len();
    while cursor.position() < len
        invariant
            cursor.words() == w,
            w == old(cursor).words(),
            target == insert_assembly(old(cursor).words(), old(cursor).pos() as int, larger_address),
            len == w.len(),
            cursor.pos() <= len,
            target == prepend(s@, insert_lines(w, cursor.pos() as int)),
        decreases len - cursor.pos(),
    {
        let ghost p = cursor.pos() as int;
        let ghost before = s@;
        let left = get_and_seek(cursor)?;
        let right = get_and_seek(cursor)?;
        if left == NOP_WORD && right == 0 {
            proof {
                assert(s@ + seq![] =~= s@);
            }
            return Ok(s);
        }
        let left_text = code_to_instruction(left);
        s.append(left_text.as_str());
        s.append("\n");
        if right == NOP_WORD {
            proof {
                assert(s@ =~= before + (word_text(left) + "\n"@));
            }
            return Ok(s);
        }
        let right_text = code_to_instruction(right);
        s.append(right_text.as_str());
        s.append("\n");
        proof {
            let step = word_text(left) + "\n"@ + word_text(right) + "\n"@;
            assert(s@ =~= before + step);
            lemma_prepend_twice(before, step, insert_lines(w, p + 2));
        }
    }
    proof {
        assert(s@ + seq![] =~= s@);
    }
    Ok(s)
}

/// The record families, by tag byte; `Unsupported` stands for every other
/// tag.
#[derive(Clone, Copy, Debug, PartialEq, Eq, Structural)]
pub enum RecordKind {
    Fill16,
    Write32,
    WriteString,
    SetRegister,
    LoadRegister,
    StoreRegister,
    ExecuteAssembly,
    InsertAssembly,
    CreateBranch,
    Unsupported,
}

/// The record family of a tag byte.
pub open spec fn kind_of(tag: u32) -> RecordKind {
    if tag == 0x02 || tag == 0x03 {
        RecordKind::Fill16
    } else if tag == 0x04 || tag == 0x05 {
        RecordKind::Write32
    } else if tag == 0x06 {
        RecordKind::WriteString
    } else if tag == 0x80 {
        RecordKind::SetRegister
    } else if tag == 0x82 {
        RecordKind::LoadRegister
    } else if tag == 0x84 || tag == 0x94 {
        RecordKind::StoreRegister
    } else if tag == 0xC0 {
        RecordKind::ExecuteAssembly
    } else if tag == 0xC2 || tag == 0xC3 {
        RecordKind::InsertAssembly
    } else if tag == 0xC6 || tag == 0xC7 {
        RecordKind::CreateBranch
    } else {
        RecordKind::Unsupported
    }
}

/// The record family of a tag byte.
pub fn record_kind(tag: u8) -> (r: RecordKind)
    ensures
        r == kind_of(tag as u32),
{
    match tag {
        0x02 | 0x03 => RecordKind::Fill16,
        0x04 | 0x05 => RecordKind::Write32,
        0x06 => RecordKind::WriteString,
        0x80 => RecordKind::SetRegister,
        0x82 => RecordKind::LoadRegister,
        0x84 | 0x94 => RecordKind::StoreRegister,
        0xC0 => RecordKind::ExecuteAssembly,
        0xC2 | 0xC3 => RecordKind::InsertAssembly,
        0xC6 | 0xC7 => RecordKind::CreateBranch,
        _ => RecordKind::Unsupported,
    }
}

/// The tag byte of a word: its top eight bits.
pub open spec fn tag_of(word: u32) -> u32 {
    word >> 24u32
}

/// The record that starts at `p`, chosen by the tag of its first word;
/// an odd tag sets the larger-address flag.
#[verifier::opaque]
pub open spec fn record(w: Seq<u32>, p: int) -> Outcome {
    let tag = tag_of(w[p]);
    let larger = tag % 2 == 1;
    match kind_of(tag) {
        RecordKind::Fill16 => fill_16(w, p, larger),
        RecordKind::Write32 => write_32(w, p, larger),
        RecordKind::WriteString => string_write(w, p, larger),
        RecordKind::SetRegister => set_register(w, p),
        RecordKind::LoadRegister => load_register(w, p),
        RecordKind::StoreRegister => store_register(w, p),
        RecordKind::ExecuteAssembly => execute_assembly(w, p),
        RecordKind::InsertAssembly => insert_assembly(w, p, larger),
        RecordKind::CreateBranch => create_branch(w, p, larger),
        RecordKind::Unsupported => Err(
            DecodeFailure::InvalidType { line_number: (p / 2 + 1) as usize, value: w[p] },
        ),
    }
}

proof fn lemma_execute_lines_within(w: Seq<u32>, p: int, lines: nat)
    ensures
        0 <= p <= w.len() ==> (execute_lines(w, p, lines) matches Ok((_, q)) ==> p <= q <= w.len()),
        execute_lines(w, p, lines) matches Err(e) ==> e is Truncated,
    decreases lines,
{
    if lines > 0 && p + 2 <= w.len() {
        lemma_execute_lines_within(w, p + 2, (lines - 1) as nat);
    }
}

proof fn lemma_insert_lines_within(w: Seq<u32>, p: int)
    ensures
        0 <= p <= w.len() ==> (insert_lines(w, p) matches Ok((_, q)) ==> p <= q <= w.len()),
        insert_lines(w, p) matches Err(e) ==> e is Truncated,
    decreases w.len() - p,
{
    if p < w.len() && p + 2 <= w.len() {
        lemma_insert_lines_within(w, p + 2);
    }
}

/// A record that decodes moves past at least its first two words and stays
/// within the code; one that fails is neither empty nor of odd length.
pub proof fn lemma_record_advances(w: Seq<u32>, p: int)
    ensures
        0 <= p < w.len() ==> (record(w, p) matches Ok((_, q)) ==> p + 2 <= q <= w.len()),
        record(w, p) matches Err(e) ==> !(e is Empty) && !(e is Malformed),
{
    reveal(record);
    lemma_execute_lines_within(w, p + 2, w[p + 1] as nat);
    lemma_insert_lines_within(w, p + 2);
}

/// What separates the text of one record from the next.
pub const RECORD_SEPARATOR: &'static str = "\n\n// ---\n\n";

/// The text of the records from `p` to the end, each followed by the
/// separator, or the first failure.
pub open spec fn decode_from(w: Seq<u32>, p: int) -> Result<Seq<char>, DecodeFailure>
    decreases w.len() - p,
{
    proof {
        lemma_record_advances(w, p);
    }
    if p < 0 || p >= w.len() {
        Ok(seq![])
    } else {
        match record(w, p) {
            Err(e) => Err(e),
            Ok((t, q)) => match decode_from(w, q) {
                Ok(rest) => Ok(t + RECORD_SEPARATOR@ + rest),
                Err(e) => Err(e),
            },
        }
    }
}

/// The text of a whole code: `Empty` for no words, `Malformed` for an odd
/// number of them, else its records in order.
pub open spec fn converted(w: Seq<u32>) -> Result<Seq<char>, DecodeFailure> {
    if w.len() == 0 {
        Err(DecodeFailure::Empty)
    } else if w.len() % 2 != 0 {
        Err(DecodeFailure::Malformed)
    } else {
        decode_from(w, 0)
    }
}

/// A text result with its error replaced by what the error says.
pub open spec fn text_result(r: Result<String, GeckoCodeConversionError>) -> Result<
    Seq<char>,
    DecodeFailure,
> {
    match r {
        Ok(s) => Ok(s@),
        Err(e) => Err(e@),
    }
}

/// A text result with `t` put before its text.
pub open spec fn after(t: Seq<char>, r: Result<Seq<char>, DecodeFailure>) -> Result<
    Seq<char>,
    DecodeFailure,
> {
    match r {
        Ok(u) => Ok(t + u),
        Err(e) => Err(e),
    }
}

/// Decodes the record at the cursor, whose family its tag byte selects.
pub fn decode_record(cursor: &mut WordCursor) -> (r: Result<String, GeckoCodeConversionError>)
    ensures
        final(cursor).words() == old(cursor).words(),
        old(cursor).pos() < old(cursor).words().len() ==> outcome(r, final(cursor).pos()) == record(
            old(cursor).words(),
            old(cursor).pos() as int,
        ),
        old(cursor).pos() >= old(cursor).words().len() ==> as_spec(r) == Err::<String, DecodeFailure>(
            DecodeFailure::Truncated,
        ),
{
    reveal(record);
    let pos = cursor.position();
    let word = match cursor.peek() {
        Some(word) => word,
        None => {
            return Err(GeckoCodeConversionError::Truncated);
        },
    };
    let tag_bits = word >> 24u32;
    assert(tag_bits < 256) by (bit_vector)
        requires
            tag_bits == word >> 24u32,
    ;
    let larger = tag_bits % 2 == 1;
    match record_kind(tag_bits as u8) {
        RecordKind::Fill16 => from_02(cursor, larger),
        RecordKind::Write32 => from_04(cursor, larger),
        RecordKind::WriteString => from_06(cursor, larger),
        RecordKind::SetRegister => from_80(cursor),
        RecordKind::LoadRegister => from_82(cursor),
        RecordKind::StoreRegister => from_84_94(cursor),
        RecordKind::ExecuteAssembly => from_c0(cursor),
        RecordKind::InsertAssembly => from_c2(cursor, larger),
        RecordKind::CreateBranch => from_c6(cursor, larger),
        RecordKind::Unsupported => Err(
            GeckoCodeConversionError::InvalidType { line_number: pos / 2 + 1, value: word },
        ),
    }
}

/// Decodes a whole code, record by record, into annotated text.
pub fn convert_from_gecko_code_values(gecko_code: &[u32]) -> (r: Result<
    String,
    GeckoCodeConversionError,
>)
    ensures
        text_result(r) == converted(gecko_code@),
        gecko_code@.len() == 0 <==> r matches Err(GeckoCodeConversionError::Empty),
        gecko_code@.len() % 2 == 1 <==> r matches Err(GeckoCodeConversionError::Malformed),
{
    let ghost w = gecko_code@;
    let len = gecko_code.len();
    if len == 0 {
        return Err(GeckoCodeConversionError::Empty);
    } else if len % 2 != 0 {
        return Err(GeckoCodeConversionError::Malformed);
    }
    let mut cursor = WordCursor::new(gecko_code);
    let mut result = String::new();
    proof {
        assert(result@ + decode_from(w, 0)->Ok_0 =~= decode_from(w, 0)->Ok_0);
    }
    while cursor.position() < len
        invariant
            cursor.words() == w,
            w == gecko_code@,
            len == w.len(),
            len > 0,
            len % 2 == 0,
            cursor.pos() <= len,
            converted(w) == after(result@, decode_from(w, cursor.pos() as int)),
        decreases len - cursor.pos(),
    {
        let pos = cursor.position();
        let ghost before = result@;
        proof {
            lemma_record_advances(w, pos as int);
        }
        let text = match decode_record(&mut cursor) {
            Ok(text) => text,
            Err(e) => {
                return Err(e);
            },
        };
        result.append(text.as_str());
        result.append(RECORD_SEPARATOR);
        proof {
            let rest = decode_from(w, cursor.pos() as int);
            if let Ok(u) = rest {
                assert(before + (text@ + RECORD_SEPARATOR@ + u) =~= result@ + u);
            }
        }
    }
    proof {
        assert(result@ + seq![] =~= result@);
    }
    Ok(result)
}

/// Whether every record from `p` on, walked one after another, has a
/// supported tag, all the words it needs, and (for a store) a valid size
/// selector.
pub open spec fn records_decode_from(w: Seq<u32>, p: int) -> bool
    decreases w.len() - p,
{
    proof {
        lemma_record_advances(w, p);
    }
    if p < 0 || p >= w.len() {
        true
    } else {
        kind_of(tag_of(w[p])) != RecordKind::Unsupported && match record(w, p) {
            Ok((_, q)) => records_decode_from(w, q),
            Err(_) => false,
        }
    }
}

proof fn lemma_decode_from_ok(w: Seq<u32>, p: int)
    requires
        records_decode_from(w, p),
    ensures
        decode_from(w, p) is Ok,
        0 <= p < w.len() ==> decode_from(w, p)->Ok_0.len() > 0,
    decreases w.len() - p,
{
    lemma_record_advances(w, p);
    if 0 <= p < w.len() {
        if let Ok((t, q)) = record(w, p) {
            lemma_decode_from_ok(w, q);
            reveal_strlit("\n\n// ---\n\n");
        }
    }
}

/// A code of an even, non-zero number of words whose records all have
/// supported tags, all the words they need and valid size selectors decodes,
/// and its text is not empty.
pub proof fn lemma_supported_code_decodes(w: Seq<u32>)
    requires
        w.len() > 0,
        w.len() % 2 == 0,
        records_decode_from(w, 0),
    ensures
        converted(w) matches Ok(t) && t.len() > 0,
{
    lemma_decode_from_ok(w, 0);
}

/// The bytes of a string write are shown as a quoted string exactly when,
/// cut to the declared count, they end in their only zero byte and are
/// valid UTF-8; any other bytes are shown as a list.
pub proof fn lemma_string_write_shows(w: Seq<u32>, p: int, larger_address: bool)
    requires
        0 <= p,
        p + 2 <= w.len(),
        p + 2 + words_for_bytes(w[p + 1] as nat) <= w.len(),
    ensures
        ({
            let b = packed_bytes(w, p + 2, w[p + 1] as nat);
            let end = p + 2 + words_for_bytes(w[p + 1] as nat);
            let head = "// - String RAM Write - \n"@ + "// Target address: "@ + hex8(
                resolved_address(w[p], larger_address),
            ) + "\n"@;
            &&& b.len() == w[p + 1]
            &&& ends_in_sole_zero(b) && valid_utf8(b) ==> string_write(w, p, larger_address) == Ok::<
                (Seq<char>, int),
                DecodeFailure,
            >((head + "// String contents: \""@ + decode_utf8(b) + "\"\n"@, end))
            &&& !(ends_in_sole_zero(b) && valid_utf8(b)) ==> string_write(w, p, larger_address)
                == Ok::<(Seq<char>, int), DecodeFailure>(
                (head + "// Byte contents:\n// ["@ + byte_list(b, b.len()), end),
            )
        }),
{
    let b = packed_bytes(w, p + 2, w[p + 1] as nat);
    let head = "// - String RAM Write - \n"@ + "// Target address: "@ + hex8(
        resolved_address(w[p], larger_address),
    ) + "\n"@;
    assert(head + ("// String contents: \""@ + decode_utf8(b) + "\"\n"@) =~= head
        + "// String contents: \""@ + decode_utf8(b) + "\"\n"@);
    assert(head + ("// Byte contents:\n// ["@ + byte_list(b, b.len())) =~= head
        + "// Byte contents:\n// ["@ + byte_list(b, b.len()));
}

} // verus!
