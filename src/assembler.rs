use vstd::prelude::*;

use crate::ppc::{
    decode, encode, encode_instruction, form_of, immediate_text, instruction_text,
    lemma_decode_encode, lemma_name_round_trip, mnemonic_named, name_of, operand_count,
    operand_list_text, operand_text, operands_text, plain_char, word_text, Form, Instruction,
    Mnemonic, Operand,
};
use crate::text::{hex_digit, radix_digits};

verus! {

/// The characters that separate the tokens of an instruction's text.
pub open spec fn is_separator(c: char) -> bool {
    c == ' ' || c == ',' || c == '\t' || c == '\n' || c == '\r'
}

/// The tokens of `s` that are complete, and the token still open at its end.
pub open spec fn scan_tokens(s: Seq<char>) -> (Seq<Seq<char>>, Seq<char>)
    decreases s.len(),
{
    if s.len() == 0 {
        (seq![], seq![])
    } else {
        let (done, open) = scan_tokens(s.drop_last());
        let c = s.last();
        if !is_separator(c) {
            (done, open.push(c))
        } else if open.len() == 0 {
            (done, open)
        } else {
            (done.push(open), seq![])
        }
    }
}

/// The maximal runs of non-separator characters of `s`, in order.
pub open spec fn tokens(s: Seq<char>) -> Seq<Seq<char>> {
    let (done, open) = scan_tokens(s);
    if open.len() == 0 {
        done
    } else {
        done.push(open)
    }
}

/// What each of a sequence of character vectors holds.
pub open spec fn views_of(v: Seq<Vec<char>>) -> Seq<Seq<char>> {
    Seq::new(v.len(), |k: int| v[k]@)
}

/// Splits a text into its tokens.
pub fn split_tokens(text: &str) -> (r: Vec<Vec<char>>)
    ensures
        views_of(r@) == tokens(text@),
{
    let n = text.unicode_len();
    let mut done: Vec<Vec<char>> = Vec::new();
    let mut open: Vec<char> = Vec::new();
    let mut i: usize = 0;
    while i < n
        invariant
            n == text@.len(),
            i <= n,
            (views_of(done@), open@) == scan_tokens(text@.take(i as int)),
        decreases n - i,
    {
        let c = text.get_char(i);
        assert(text@.take(i + 1).drop_last() =~= text@.take(i as int));
        if !(c == ' ' || c == ',' || c == '\t' || c == '\n' || c == '\r') {
            open.push(c);
        } else if open.len() > 0 {
            let ghost before = views_of(done@);
            done.push(open);
            open = Vec::new();
            assert(views_of(done@) =~= before.push(scan_tokens(text@.take(i as int)).1));
        }
        i = i + 1;
        assert(open@ =~= scan_tokens(text@.take(i as int)).1);
    }
    assert(text@.take(n as int) =~= text@);
    if open.len() > 0 {
        let ghost before = views_of(done@);
        done.push(open);
        assert(views_of(done@) =~= before.push(scan_tokens(text@).1));
    }
    done
}

/// The value of a digit in `base` (at most 16), where `c` is one; both
/// cases of letters are digits.
pub open spec fn digit_of(c: char, base: nat) -> Option<nat> {
    let u = c as u32;
    let v: int = if 0x30 <= u <= 0x39 {
        u - 0x30
    } else if 0x61 <= u <= 0x66 {
        u - 0x61 + 10
    } else if 0x41 <= u <= 0x46 {
        u - 0x41 + 10
    } else {
        16
    };
    if v < base {
        Some(v as nat)
    } else {
        None
    }
}

/// Whether every character of `s` is a digit in `base`.
pub open spec fn all_digits(s: Seq<char>, base: nat) -> bool {
    forall|i: int| 0 <= i < s.len() ==> digit_of(#[trigger] s[i], base) is Some
}

/// The value of a run of digits in `base`, most significant first.
pub open spec fn digits_value(s: Seq<char>, base: nat) -> nat
    decreases s.len(),
{
    if s.len() == 0 {
        0
    } else {
        let d = match digit_of(s.last(), base) {
            Some(d) => d,
            None => 0,
        };
        digits_value(s.drop_last(), base) * base + d
    }
}

/// The value of `s` read as digits in `base`, where it is a non-empty run of
/// such digits whose value is at most `limit`.
pub open spec fn bounded_value(s: Seq<char>, base: nat, limit: nat) -> Option<nat> {
    if s.len() > 0 && all_digits(s, base) && digits_value(s, base) <= limit {
        Some(digits_value(s, base))
    } else {
        None
    }
}

proof fn lemma_value_grows(s: Seq<char>, base: nat, k: int)
    requires
        all_digits(s, base),
        base >= 1,
        0 <= k <= s.len(),
    ensures
        digits_value(s.take(k), base) <= digits_value(s, base),
    decreases s.len(),
{
    if k < s.len() {
        let t = s.drop_last();
        assert(all_digits(t, base)) by {
            assert forall|i: int| 0 <= i < t.len() implies digit_of(#[trigger] t[i], base) is Some by {
                assert(t[i] == s[i]);
            }
        }
        lemma_value_grows(t, base, k);
        assert(t.take(k) =~= s.take(k));
        let v = digits_value(t, base);
        assert(v <= v * base) by (nonlinear_arith)
            requires
                base >= 1,
        ;
    } else {
        assert(s.take(k) =~= s);
    }
}

fn digit_value(c: char, base: u32) -> (r: Option<u32>)
    requires
        base <= 16,
    ensures
        match digit_of(c, base as nat) {
            Some(d) => r == Some(d as u32),
            None => r is None,
        },
{
    let u = c as u32;
    let v: u32 = if 0x30 <= u && u <= 0x39 {
        u - 0x30
    } else if 0x61 <= u && u <= 0x66 {
        u - 0x61 + 10
    } else if 0x41 <= u && u <= 0x46 {
        u - 0x41 + 10
    } else {
        16
    };
    if v < base {
        Some(v)
    } else {
        None
    }
}

/// Reads `t[lo..hi]` as digits in `base`: `None` where it is empty, holds a
/// character that is no such digit, or has a value above `limit`.
pub fn parse_digits(t: &Vec<char>, lo: usize, hi: usize, base: u64, limit: u64) -> (r: Option<
    u64,
>)
    requires
        lo <= hi <= t@.len(),
        2 <= base <= 16,
        limit <= 0xFFFF_FFFF,
    ensures
        match bounded_value(t@.subrange(lo as int, hi as int), base as nat, limit as nat) {
            Some(v) => r == Some(v as u64),
            None => r is None,
        },
{
    let ghost s = t@.subrange(lo as int, hi as int);
    if lo == hi {
        return None;
    }
    let mut acc: u64 = 0;
    let mut i: usize = lo;
    while i < hi
        invariant
            lo <= i <= hi <= t@.len(),
            s == t@.subrange(lo as int, hi as int),
            2 <= base <= 16,
            limit <= 0xFFFF_FFFF,
            all_digits(s.take(i - lo), base as nat),
            acc == digits_value(s.take(i - lo), base as nat),
            acc <= limit,
        decreases hi - i,
    {
        let ghost p = s.take(i - lo);
        let ghost q = s.take(i + 1 - lo);
        assert(q.drop_last() =~= p);
        assert(q.last() == t@[i as int]);
        match digit_value(t[i], base as u32) {
            None => {
                assert(!all_digits(s, base as nat)) by {
                    assert(s[i - lo] == t@[i as int]);
                }
                return None;
            },
            Some(d) => {
                assert(all_digits(q, base as nat)) by {
                    assert forall|j: int| 0 <= j < q.len() implies digit_of(
                        #[trigger] q[j],
                        base as nat,
                    ) is Some by {
                        if j < p.len() {
                            assert(q[j] == p[j]);
                        }
                    }
                }
                assert(acc * base + d <= 0xFFFF_FFFF * 16 + 15) by (nonlinear_arith)
                    requires
                        acc <= 0xFFFF_FFFF,
                        base <= 16,
                        d < 16,
                ;
                let next = acc * base + d as u64;
                if next > limit {
                    proof {
                        if all_digits(s, base as nat) {
                            lemma_value_grows(s, base as nat, i + 1 - lo);
                        }
                    }
                    return None;
                }
                acc = next;
            },
        }
        i = i + 1;
    }
    assert(s.take(hi - lo) =~= s);
    Some(acc)
}

/// A number: optionally `-`, then `0x` and hexadecimal digits, or decimal
/// digits. The result says whether it was negated, and its magnitude
/// (`None` where the magnitude is above `0xFFFF`).
pub open spec fn number_value(t: Seq<char>) -> Option<(bool, nat)> {
    let negated = t.len() > 0 && t[0] == '-';
    let body = if negated {
        t.drop_first()
    } else {
        t
    };
    let hex = body.len() >= 2 && body[0] == '0' && (body[1] == 'x' || body[1] == 'X');
    let digits = if hex {
        body.subrange(2, body.len() as int)
    } else {
        body
    };
    match bounded_value(digits, if hex { 16 } else { 10 }, 0xFFFF) {
        Some(v) => Some((negated, v)),
        None => None,
    }
}

/// An immediate operand: a number whose value fits a 16-bit field, a
/// negated one as its two's complement.
pub open spec fn immediate_value(t: Seq<char>) -> Option<u16> {
    match number_value(t) {
        Some((false, v)) => Some(v as u16),
        Some((true, v)) => if v == 0 {
            Some(0)
        } else if v <= 0x8000 {
            Some((0x10000 - v) as u16)
        } else {
            None
        },
        None => None,
    }
}

/// A register operand: `r` or `f`, then its index in decimal (below 256).
pub open spec fn register_value(t: Seq<char>) -> Option<u8> {
    if t.len() > 0 && (t[0] == 'r' || t[0] == 'f') {
        match bounded_value(t.drop_first(), 10, 255) {
            Some(v) => Some(v as u8),
            None => None,
        }
    } else {
        None
    }
}

/// Reads `t[lo..hi]` as an immediate.
fn parse_immediate(t: &Vec<char>, lo: usize, hi: usize) -> (r: Option<u16>)
    requires
        lo <= hi <= t@.len(),
    ensures
        r == immediate_value(t@.subrange(lo as int, hi as int)),
{
    let ghost s = t@.subrange(lo as int, hi as int);
    let negated = lo < hi && t[lo] == '-';
    let start = if negated {
        lo + 1
    } else {
        lo
    };
    let ghost body = if negated {
        s.drop_first()
    } else {
        s
    };
    assert(body =~= t@.subrange(start as int, hi as int));
    let hex = hi - start >= 2 && t[start] == '0' && (t[start + 1] == 'x' || t[start + 1] == 'X');
    let (from, base) = if hex {
        (start + 2, 16u64)
    } else {
        (start, 10u64)
    };
    assert(t@.subrange(from as int, hi as int) =~= if hex {
        body.subrange(2, body.len() as int)
    } else {
        body
    });
    match parse_digits(t, from, hi, base, 0xFFFF) {
        Some(v) => if !negated {
            Some(v as u16)
        } else if v == 0 {
            Some(0)
        } else if v <= 0x8000 {
            Some((0x10000 - v) as u16)
        } else {
            None
        },
        None => None,
    }
}

/// Reads `t[lo..hi]` as a register.
fn parse_register(t: &Vec<char>, lo: usize, hi: usize) -> (r: Option<u8>)
    requires
        lo <= hi <= t@.len(),
    ensures
        r == register_value(t@.subrange(lo as int, hi as int)),
{
    if lo < hi && (t[lo] == 'r' || t[lo] == 'f') {
        assert(t@.subrange(lo as int, hi as int).drop_first() =~= t@.subrange(lo + 1, hi as int));
        match parse_digits(t, lo + 1, hi, 10, 255) {
            Some(v) => Some(v as u8),
            None => None,
        }
    } else {
        None
    }
}

/// The index of the first `c` in `t`, or -1 where there is none.
pub open spec fn first_index(t: Seq<char>, c: char) -> int
    decreases t.len(),
{
    if t.len() == 0 {
        -1
    } else {
        let k = first_index(t.drop_last(), c);
        if k >= 0 {
            k
        } else if t.last() == c {
            t.len() - 1
        } else {
            -1
        }
    }
}

/// The operands that one token writes: `imm(reg)` writes an immediate and
/// a register, a register or an immediate writes itself.
pub open spec fn token_operands(t: Seq<char>) -> Option<Seq<Operand>> {
    let k = first_index(t, '(');
    if k >= 0 {
        if t.len() >= k + 2 && t.last() == ')' {
            match (immediate_value(t.take(k)), register_value(t.subrange(k + 1, t.len() - 1))) {
                (Some(i), Some(r)) => Some(seq![Operand::Immediate(i), Operand::Register(r)]),
                _ => None,
            }
        } else {
            None
        }
    } else {
        match register_value(t) {
            Some(r) => Some(seq![Operand::Register(r)]),
            None => match immediate_value(t) {
                Some(i) => Some(seq![Operand::Immediate(i)]),
                None => None,
            },
        }
    }
}

/// The operands that a run of tokens writes, in order.
pub open spec fn tokens_operands(toks: Seq<Seq<char>>) -> Option<Seq<Operand>>
    decreases toks.len(),
{
    if toks.len() == 0 {
        Some(seq![])
    } else {
        match (tokens_operands(toks.drop_last()), token_operands(toks.last())) {
            (Some(a), Some(b)) => Some(a + b),
            _ => None,
        }
    }
}

/// The word that an instruction's text assembles to: its first token names
/// the mnemonic, the others give the operands, and these must be as many
/// as the mnemonic takes and fit its encoding.
pub open spec fn assembled(text: Seq<char>) -> Option<u32> {
    let toks = tokens(text);
    if toks.len() == 0 {
        None
    } else {
        match (mnemonic_named(toks[0]), tokens_operands(toks.drop_first())) {
            (Some(m), Some(ops)) => encode(m, ops),
            _ => None,
        }
    }
}

/// Appends the operands that a token writes to `ops`; `false` where the
/// token is no operand.
fn push_token_operands(t: &Vec<char>, ops: &mut Vec<Operand>) -> (r: bool)
    ensures
        match token_operands(t@) {
            Some(more) => r && final(ops)@ == old(ops)@ + more,
            None => !r,
        },
{
    let n = t.len();
    let mut k: usize = 0;
    while k < n && t[k] != '('
        invariant
            n == t@.len(),
            k <= n,
            first_index(t@.take(k as int), '(') == -1,
        decreases n - k,
    {
        assert(t@.take(k + 1).drop_last() =~= t@.take(k as int));
        k = k + 1;
    }
    proof {
        if k < n {
            assert(t@.take(k + 1).drop_last() =~= t@.take(k as int));
            lemma_first_index_prefix(t@, k + 1, '(');
        } else {
            assert(t@.take(n as int) =~= t@);
        }
    }
    if k < n {
        if n - k >= 2 && t[n - 1] == ')' {
            assert(t@.take(k as int) =~= t@.subrange(0, k as int));
            match (parse_immediate(t, 0, k), parse_register(t, k + 1, n - 1)) {
                (Some(i), Some(r)) => {
                    ops.push(Operand::Immediate(i));
                    ops.push(Operand::Register(r));
                    assert(ops@ =~= old(ops)@ + seq![Operand::Immediate(i), Operand::Register(r)]);
                    true
                },
                _ => false,
            }
        } else {
            false
        }
    } else {
        assert(t@.subrange(0, n as int) =~= t@);
        match parse_register(t, 0, n) {
            Some(r) => {
                ops.push(Operand::Register(r));
                assert(ops@ =~= old(ops)@ + seq![Operand::Register(r)]);
                true
            },
            None => match parse_immediate(t, 0, n) {
                Some(i) => {
                    ops.push(Operand::Immediate(i));
                    assert(ops@ =~= old(ops)@ + seq![Operand::Immediate(i)]);
                    true
                },
                None => false,
            },
        }
    }
}

proof fn lemma_first_index_prefix(t: Seq<char>, k: int, c: char)
    requires
        0 < k <= t.len(),
        t[k - 1] == c,
        first_index(t.take(k - 1), c) == -1,
    ensures
        first_index(t, c) == k - 1,
    decreases t.len(),
{
    if k < t.len() {
        assert(t.drop_last().take(k - 1) =~= t.take(k - 1));
        lemma_first_index_prefix(t.drop_last(), k, c);
    } else {
        assert(t.drop_last() =~= t.take(k - 1));
    }
}

/// Assembles the text of one instruction, as `lwz r3, 0x4(r3)`, into its
/// word. Tokens are separated by spaces and commas; registers are written
/// `r<N>` or `f<N>`, immediates in decimal or as `0x` and hexadecimal
/// digits, optionally negated, and a displacement as `imm(reg)`. `None`
/// where the mnemonic is unknown, a token is no operand, the operands are
/// not as many as the mnemonic takes, or they do not fit its encoding.
pub fn instruction_to_code(text: &str) -> (r: Option<u32>)
    ensures
        r == assembled(text@),
        tokens(text@).len() == 0 ==> r is None,
        tokens(text@).len() > 0 && mnemonic_named(tokens(text@)[0]) is None ==> r is None,
        ({
            let toks = tokens(text@);
            toks.len() > 0 && mnemonic_named(toks[0]) is Some && tokens_operands(toks.drop_first()) is Some
                && tokens_operands(toks.drop_first())->0.len() != operand_count(
                form_of(mnemonic_named(toks[0])->0),
            )
        }) ==> r is None,
{
    let toks = split_tokens(text);
    let ghost tv = views_of(toks@);
    if toks.len() == 0 {
        return None;
    }
    assert(toks@[0]@ == tv[0]);
    let m = match Mnemonic::from_name(&toks[0]) {
        Some(m) => m,
        None => {
            return None;
        },
    };
    let mut ops: Vec<Operand> = Vec::new();
    let mut i: usize = 1;
    while i < toks.len()
        invariant
            1 <= i <= toks@.len(),
            tv == views_of(toks@),
            tv == tokens(text@),
            tokens_operands(tv.subrange(1, i as int)) == Some(ops@),
        decreases toks@.len() - i,
    {
        assert(toks@[i as int]@ == tv[i as int]);
        let ghost before = ops@;
        if !push_token_operands(&toks[i], &mut ops) {
            proof {
                let part = tv.subrange(1, i + 1);
                assert(part.drop_last() =~= tv.subrange(1, i as int));
                assert(part.last() == tv[i as int]);
                assert(tokens_operands(part) is None);
                assert(tv.drop_first().take(i as int) =~= part);
                lemma_operands_fail(tv.drop_first(), i as int);
            }
            return None;
        }
        assert(tv.subrange(1, i + 1).drop_last() =~= tv.subrange(1, i as int));
        i = i + 1;
    }
    assert(tv.subrange(1, tv.len() as int) =~= tv.drop_first());
    encode_instruction(&Instruction { mnemonic: m, operands: ops })
}

proof fn lemma_operands_fail(toks: Seq<Seq<char>>, k: int)
    requires
        0 < k <= toks.len(),
        tokens_operands(toks.take(k)) is None,
    ensures
        tokens_operands(toks) is None,
    decreases toks.len(),
{
    if k < toks.len() {
        assert(toks.drop_last().take(k) =~= toks.take(k));
        lemma_operands_fail(toks.drop_last(), k);
    } else {
        assert(toks.take(k) =~= toks);
    }
}

/// Whether no character of `s` ends a token.
pub open spec fn unbroken(s: Seq<char>) -> bool {
    forall|i: int| 0 <= i < s.len() ==> !is_separator(#[trigger] s[i])
}

/// Whether every character of `s` is plain.
pub open spec fn all_plain(s: Seq<char>) -> bool {
    forall|i: int| 0 <= i < s.len() ==> plain_char(#[trigger] s[i])
}

proof fn lemma_hex_digit(d: nat, base: nat)
    requires
        d < base <= 16,
    ensures
        digit_of(hex_digit(d), base) == Some(d),
        plain_char(hex_digit(d)),
{
    assert(d == 0 || d == 1 || d == 2 || d == 3 || d == 4 || d == 5 || d == 6 || d == 7 || d == 8
        || d == 9 || d == 10 || d == 11 || d == 12 || d == 13 || d == 14 || d == 15);
}

proof fn lemma_radix_reads_back(n: nat, base: nat)
    requires
        2 <= base <= 16,
    ensures
        radix_digits(n, base).len() > 0,
        all_digits(radix_digits(n, base), base),
        digits_value(radix_digits(n, base), base) == n,
        all_plain(radix_digits(n, base)),
    decreases n,
{
    let s = radix_digits(n, base);
    if n < base {
        lemma_hex_digit(n, base);
        assert(s.drop_last() =~= Seq::<char>::empty());
        assert(s.last() == hex_digit(n));
        assert(digits_value(s, base) == digits_value(s.drop_last(), base) * base + n);
        let z = digits_value(s.drop_last(), base);
        assert(z == 0);
        assert(z * base + n == n) by (nonlinear_arith)
            requires
                z == 0,
        ;
    } else {
        assert(n / base < n) by (nonlinear_arith)
            requires
                base >= 2,
                n >= base,
        ;
        lemma_radix_reads_back(n / base, base);
        lemma_hex_digit(n % base, base);
        let t = radix_digits(n / base, base);
        assert(s.drop_last() =~= t);
        assert(all_digits(s, base)) by {
            assert forall|i: int| 0 <= i < s.len() implies digit_of(#[trigger] s[i], base) is Some by {
                if i < t.len() {
                    assert(s[i] == t[i]);
                }
            }
        }
        assert(all_plain(s)) by {
            assert forall|i: int| 0 <= i < s.len() implies plain_char(#[trigger] s[i]) by {
                if i < t.len() {
                    assert(s[i] == t[i]);
                }
            }
        }
        assert((n / base) * base + n % base == n) by (nonlinear_arith)
            requires
                base >= 2,
        ;
        assert(s.last() == hex_digit(n % base));
        assert(digits_value(s, base) == digits_value(t, base) * base + n % base);
        let v = digits_value(t, base);
        assert(v == n / base);
        assert(v * base + n % base == n) by (nonlinear_arith)
            requires
                v == n / base,
                base >= 2,
        ;
    }
}

proof fn lemma_no_paren(s: Seq<char>)
    requires
        all_plain(s),
    ensures
        first_index(s, '(') == -1,
    decreases s.len(),
{
    if s.len() > 0 {
        lemma_no_paren(s.drop_last());
        assert(plain_char(s[s.len() - 1]));
    }
}

proof fn lemma_paren_after(a: Seq<char>, b: Seq<char>)
    requires
        forall|i: int| 0 <= i < a.len() ==> a[i] != '(',
        b.len() > 0,
        b[0] == '(',
    ensures
        first_index(a + b, '(') == a.len(),
    decreases b.len(),
{
    if b.len() == 1 {
        lemma_no_paren_any(a);
        assert((a + b).drop_last() =~= a);
    } else {
        lemma_paren_after(a, b.drop_last());
        assert((a + b).drop_last() =~= a + b.drop_last());
    }
}

proof fn lemma_immediate_reads_back(v: u16, signed: bool)
    ensures
        immediate_value(immediate_text(v, signed)) == Some(v),
        register_value(immediate_text(v, signed)) is None,
        all_plain(immediate_text(v, signed).drop_first()),
        plain_char(immediate_text(v, signed)[0]) || immediate_text(v, signed)[0] == '-',
        immediate_text(v, signed).len() > 0,
        first_index(immediate_text(v, signed), '(') == -1,
{
    reveal_strlit("0x");
    reveal_strlit("-0x");
    let t = immediate_text(v, signed);
    if signed && v >= 0x8000 {
        let m = (0x10000 - v) as nat;
        let digits = radix_digits(m, 16);
        lemma_radix_reads_back(m, 16);
        assert(t =~= seq!['-', '0', 'x'] + digits);
        assert(t.drop_first() =~= seq!['0', 'x'] + digits);
        assert(t.drop_first().subrange(2, t.drop_first().len() as int) =~= digits);
        assert(all_plain(t.drop_first()));
        assert(first_index(t, '(') == -1) by {
            assert(t =~= seq!['-'] + t.drop_first());
            lemma_paren_after_none(seq!['-'], t.drop_first());
        }
    } else {
        let digits = radix_digits(v as nat, 16);
        lemma_radix_reads_back(v as nat, 16);
        assert(t =~= seq!['0', 'x'] + digits);
        assert(t.subrange(2, t.len() as int) =~= digits);
        assert(t.drop_first() =~= seq!['x'] + digits);
        assert(all_plain(t.drop_first()));
        assert(all_plain(t));
        lemma_no_paren(t);
    }
}

proof fn lemma_paren_after_none(a: Seq<char>, b: Seq<char>)
    requires
        forall|i: int| 0 <= i < a.len() ==> a[i] != '(',
        all_plain(b),
    ensures
        first_index(a + b, '(') == -1,
    decreases a.len() + b.len(),
{
    if b.len() == 0 {
        assert(a + b =~= a);
        lemma_no_paren_any(a);
    } else {
        lemma_paren_after_none(a, b.drop_last());
        assert((a + b).drop_last() =~= a + b.drop_last());
        assert(plain_char(b[b.len() - 1]));
    }
}

proof fn lemma_no_paren_any(a: Seq<char>)
    requires
        forall|i: int| 0 <= i < a.len() ==> a[i] != '(',
    ensures
        first_index(a, '(') == -1,
    decreases a.len(),
{
    if a.len() > 0 {
        lemma_no_paren_any(a.drop_last());
    }
}

/// The text of an operand reads back as that operand, and holds nothing
/// that ends a token or opens a displacement.
proof fn lemma_operand_reads_back(f: Form, index: int, o: Operand)
    ensures
        token_operands(operand_text(f, index, o)) == Some(seq![o]),
        operand_text(f, index, o).len() > 0,
        unbroken(operand_text(f, index, o)),
        first_index(operand_text(f, index, o), '(') == -1,
        o is Register ==> register_value(operand_text(f, index, o)) == Some(o->Register_0),
{
    let t = operand_text(f, index, o);
    match o {
        Operand::Register(r) => {
            reveal_strlit("r");
            reveal_strlit("f");
            let digits = radix_digits(r as nat, 10);
            lemma_radix_reads_back(r as nat, 10);
            let c = t[0];
            assert(c == 'r' || c == 'f');
            assert(t =~= seq![c] + digits);
            assert(t.drop_first() =~= digits);
            assert(all_plain(t));
            lemma_no_paren(t);
        },
        Operand::Immediate(v) => {
            lemma_immediate_reads_back(v, crate::ppc::signed_immediates(f));
            assert(unbroken(t)) by {
                assert forall|i: int| 0 <= i < t.len() implies !is_separator(#[trigger] t[i]) by {
                    if i > 0 {
                        assert(t[i] == t.drop_first()[i - 1]);
                    }
                }
            }
        },
    }
}

proof fn lemma_unbroken_concat(a: Seq<char>, b: Seq<char>)
    requires
        unbroken(a),
        unbroken(b),
    ensures
        unbroken(a + b),
{
    assert forall|i: int| 0 <= i < (a + b).len() implies !is_separator(#[trigger] (a + b)[i]) by {
        if i < a.len() {
            assert((a + b)[i] == a[i]);
        } else {
            assert((a + b)[i] == b[i - a.len()]);
        }
    }
}

proof fn lemma_first_index_none(a: Seq<char>, c: char)
    requires
        first_index(a, c) == -1,
    ensures
        forall|i: int| 0 <= i < a.len() ==> a[i] != c,
    decreases a.len(),
{
    if a.len() > 0 {
        lemma_first_index_none(a.drop_last(), c);
        assert forall|i: int| 0 <= i < a.len() implies a[i] != c by {
            if i < a.len() - 1 {
                assert(a[i] == a.drop_last()[i]);
            }
        }
    }
}

/// A displacement and base register written `d(rA)` read back as the two
/// operands.
proof fn lemma_displacement_reads_back(f: Form, d: Operand, base: Operand)
    requires
        d is Immediate,
        base is Register,
    ensures
        token_operands(operand_text(f, 1, d) + "("@ + operand_text(f, 2, base) + ")"@) == Some(
            seq![d, base],
        ),
        unbroken(operand_text(f, 1, d) + "("@ + operand_text(f, 2, base) + ")"@),
{
    reveal_strlit("(");
    reveal_strlit(")");
    let a = operand_text(f, 1, d);
    let b = operand_text(f, 2, base);
    let t = a + "("@ + b + ")"@;
    lemma_operand_reads_back(f, 1, d);
    lemma_operand_reads_back(f, 2, base);
    lemma_immediate_reads_back(d->Immediate_0, crate::ppc::signed_immediates(f));
    lemma_first_index_none(a, '(');
    let tail = seq!['('] + b + seq![')'];
    assert(t =~= a + tail);
    lemma_paren_after(a, tail);
    assert(t.take(a.len() as int) =~= a);
    assert(t.subrange(a.len() + 1int, t.len() - 1) =~= b);
    assert(register_value(b) == Some(base->Register_0));
    assert(unbroken(seq!['('])) by {
        assert(seq!['('][0] == '(');
    }
    assert(unbroken(seq![')'])) by {
        assert(seq![')'][0] == ')');
    }
    lemma_unbroken_concat(a, seq!['(']);
    lemma_unbroken_concat(a + seq!['('], b);
    lemma_unbroken_concat(a + seq!['('] + b, seq![')']);
    assert(t =~= a + seq!['('] + b + seq![')']);
}

/// Scanning on through a run of characters that end no token extends the
/// open token by them.
proof fn lemma_scan_word(s: Seq<char>, t: Seq<char>)
    requires
        unbroken(t),
    ensures
        scan_tokens(s + t) == (scan_tokens(s).0, scan_tokens(s).1 + t),
    decreases t.len(),
{
    if t.len() == 0 {
        assert(s + t =~= s);
        assert(scan_tokens(s).1 + t =~= scan_tokens(s).1);
    } else {
        lemma_scan_word(s, t.drop_last());
        assert((s + t).drop_last() =~= s + t.drop_last());
        assert(scan_tokens(s).1 + t.drop_last() + seq![t.last()] =~= scan_tokens(s).1 + t);
        assert(!is_separator(t[t.len() - 1]));
    }
}

/// Scanning on through `, ` or ` ` closes the open token.
proof fn lemma_scan_separator(s: Seq<char>, sep: Seq<char>)
    requires
        sep == ", "@ || sep == " "@,
        scan_tokens(s).1.len() > 0,
    ensures
        scan_tokens(s + sep) == (scan_tokens(s).0.push(scan_tokens(s).1), Seq::<char>::empty()),
{
    reveal_strlit(", ");
    reveal_strlit(" ");
    if sep == " "@ {
        assert((s + sep).drop_last() =~= s);
        assert(scan_tokens(s + sep).1 =~= Seq::<char>::empty());
    } else {
        let s1 = s + seq![','];
        assert(s1.drop_last() =~= s);
        assert(s + sep =~= s1.push(' '));
        assert((s + sep).drop_last() =~= s1);
        assert(scan_tokens(s1).1 =~= Seq::<char>::empty());
    }
}

/// Scanning a separator and then a word closes the open token and opens the
/// word.
proof fn lemma_scan_next(s: Seq<char>, sep: Seq<char>, t: Seq<char>)
    requires
        sep == ", "@ || sep == " "@,
        scan_tokens(s).1.len() > 0,
        unbroken(t),
    ensures
        scan_tokens(s + sep + t) == (scan_tokens(s).0.push(scan_tokens(s).1), t),
{
    lemma_scan_separator(s, sep);
    lemma_scan_word(s + sep, t);
    assert(Seq::<char>::empty() + t =~= t);
}

proof fn lemma_plain_unbroken(s: Seq<char>)
    requires
        all_plain(s),
    ensures
        unbroken(s),
{
    assert forall|i: int| 0 <= i < s.len() implies !is_separator(#[trigger] s[i]) by {
        assert(plain_char(s[i]));
    }
}

/// Facts about a mnemonic's text that reading instructions back relies on.
proof fn lemma_name_scans(m: Mnemonic)
    ensures
        mnemonic_named(name_of(m)) == Some(m),
        scan_tokens(name_of(m)) == (Seq::<Seq<char>>::empty(), name_of(m)),
        name_of(m).len() > 0,
{
    let name = name_of(m);
    let empty = Seq::<char>::empty();
    lemma_name_round_trip(m);
    assert(all_plain(name));
    lemma_plain_unbroken(name);
    lemma_scan_word(empty, name);
    assert(empty + name =~= name);
}

/// What assembling reads from a text whose tokens are `name` and then
/// `rest`.
proof fn lemma_assembled_from(text: Seq<char>, m: Mnemonic, rest: Seq<Seq<char>>)
    requires
        tokens(text) == seq![name_of(m)] + rest,
        mnemonic_named(name_of(m)) == Some(m),
    ensures
        assembled(text) == match tokens_operands(rest) {
            Some(ops) => encode(m, ops),
            None => None,
        },
{
    assert(tokens(text).drop_first() =~= rest);
}

/// Scanning on through a separator and a word adds the word as a token.
proof fn lemma_line_next(s: Seq<char>, sep: Seq<char>, t: Seq<char>)
    requires
        sep == ", "@ || sep == " "@,
        scan_tokens(s).1.len() > 0,
        unbroken(t),
        t.len() > 0,
    ensures
        tokens(s + sep + t) == tokens(s).push(t),
        scan_tokens(s + sep + t).1 == t,
{
    lemma_scan_next(s, sep, t);
}

/// The operands that one, two or three tokens write, in order.
proof fn lemma_operands_of_words(words: Seq<Seq<char>>, ops: Seq<Seq<Operand>>)
    requires
        words.len() == ops.len(),
        forall|i: int| 0 <= i < words.len() ==> token_operands(#[trigger] words[i]) == Some(ops[i]),
    ensures
        tokens_operands(words) == Some(flat(ops)),
    decreases words.len(),
{
    if words.len() > 0 {
        let wf = words.drop_last();
        let of = ops.drop_last();
        assert forall|i: int| 0 <= i < wf.len() implies token_operands(#[trigger] wf[i]) == Some(
            of[i],
        ) by {
            assert(wf[i] == words[i]);
        }
        lemma_operands_of_words(wf, of);
        assert(token_operands(words.last()) == Some(ops.last()));
    }
}

/// The operand lists joined end to end.
pub open spec fn flat(ops: Seq<Seq<Operand>>) -> Seq<Operand>
    decreases ops.len(),
{
    if ops.len() == 0 {
        seq![]
    } else {
        flat(ops.drop_last()) + ops.last()
    }
}

proof fn lemma_flat_1(a: Seq<Operand>)
    ensures
        flat(seq![a]) == a,
{
    let e = Seq::<Seq<Operand>>::empty();
    assert(seq![a].drop_last() =~= e);
    assert(flat(e) =~= Seq::<Operand>::empty());
    assert(seq![a].last() == a);
    assert(flat(seq![a]) == flat(e) + a);
    assert(Seq::<Operand>::empty() + a =~= a);
}

proof fn lemma_flat_2(a: Seq<Operand>, b: Seq<Operand>)
    ensures
        flat(seq![a, b]) == a + b,
{
    assert(seq![a, b].drop_last() =~= seq![a]);
    lemma_flat_1(a);
}

proof fn lemma_flat_3(a: Seq<Operand>, b: Seq<Operand>, c: Seq<Operand>)
    ensures
        flat(seq![a, b, c]) == a + b + c,
{
    assert(seq![a, b, c].drop_last() =~= seq![a, b]);
    lemma_flat_2(a, b);
}

proof fn lemma_reads_back_one(m: Mnemonic, ops: Seq<Operand>)
    requires
        ops.len() == 1,
    ensures
        assembled(instruction_text(m, ops)) == encode(m, ops),
{
    let f = form_of(m);
    let name = name_of(m);
    let text = instruction_text(m, ops);
    lemma_name_scans(m);
    let t0 = operand_text(f, 0, ops[0]);
    lemma_operand_reads_back(f, 0, ops[0]);
    lemma_line_next(name, " "@, t0);
    assert(tokens(name) == seq![name]);
    assert(operands_text(f, ops) == t0);
    let rest = seq![t0];
    assert(tokens(text) =~= seq![name] + rest);
    lemma_operands_of_words(rest, seq![seq![ops[0]]]);
    lemma_assembled_from(text, m, rest);
    lemma_flat_1(seq![ops[0]]);
    assert(seq![ops[0]] =~= ops);
}

proof fn lemma_reads_back_two(m: Mnemonic, ops: Seq<Operand>)
    requires
        ops.len() == 2,
    ensures
        assembled(instruction_text(m, ops)) == encode(m, ops),
{
    let f = form_of(m);
    let name = name_of(m);
    let text = instruction_text(m, ops);
    lemma_name_scans(m);
    let t0 = operand_text(f, 0, ops[0]);
    let t1 = operand_text(f, 1, ops[1]);
    lemma_operand_reads_back(f, 0, ops[0]);
    lemma_operand_reads_back(f, 1, ops[1]);
    assert(tokens(name) == seq![name]);
    lemma_line_next(name, " "@, t0);
    let s1 = name + " "@ + t0;
    lemma_line_next(s1, ", "@, t1);
    assert(ops.drop_last() =~= seq![ops[0]]);
    assert(operand_list_text(f, ops.drop_last()) == t0);
    assert(operands_text(f, ops) == t0 + ", "@ + t1);
    assert(text =~= s1 + ", "@ + t1);
    let rest = seq![t0, t1];
    assert(tokens(text) =~= seq![name] + rest);
    lemma_operands_of_words(rest, seq![seq![ops[0]], seq![ops[1]]]);
    lemma_assembled_from(text, m, rest);
    lemma_flat_2(seq![ops[0]], seq![ops[1]]);
    assert(seq![ops[0]] + seq![ops[1]] =~= ops);
}

proof fn lemma_reads_back_three(m: Mnemonic, ops: Seq<Operand>)
    requires
        ops.len() == 3,
        !(form_of(m) is Memory),
    ensures
        assembled(instruction_text(m, ops)) == encode(m, ops),
{
    let f = form_of(m);
    let name = name_of(m);
    let text = instruction_text(m, ops);
    lemma_name_scans(m);
    let t0 = operand_text(f, 0, ops[0]);
    let t1 = operand_text(f, 1, ops[1]);
    let t2 = operand_text(f, 2, ops[2]);
    lemma_operand_reads_back(f, 0, ops[0]);
    lemma_operand_reads_back(f, 1, ops[1]);
    lemma_operand_reads_back(f, 2, ops[2]);
    assert(tokens(name) == seq![name]);
    lemma_line_next(name, " "@, t0);
    let s1 = name + " "@ + t0;
    lemma_line_next(s1, ", "@, t1);
    let s2 = s1 + ", "@ + t1;
    lemma_line_next(s2, ", "@, t2);
    let two = ops.drop_last();
    assert(two =~= seq![ops[0], ops[1]]);
    assert(two.drop_last() =~= seq![ops[0]]);
    assert(operand_list_text(f, two.drop_last()) == t0);
    assert(operand_list_text(f, two) == t0 + ", "@ + t1);
    assert(operands_text(f, ops) == t0 + ", "@ + t1 + ", "@ + t2);
    assert(text =~= s2 + ", "@ + t2);
    let rest = seq![t0, t1, t2];
    assert(tokens(text) =~= seq![name] + rest);
    lemma_operands_of_words(rest, seq![seq![ops[0]], seq![ops[1]], seq![ops[2]]]);
    lemma_assembled_from(text, m, rest);
    lemma_flat_3(seq![ops[0]], seq![ops[1]], seq![ops[2]]);
    assert(seq![ops[0]] + seq![ops[1]] + seq![ops[2]] =~= ops);
}

proof fn lemma_reads_back_displacement(m: Mnemonic, ops: Seq<Operand>)
    requires
        ops.len() == 3,
        form_of(m) is Memory,
        ops[1] is Immediate,
        ops[2] is Register,
    ensures
        assembled(instruction_text(m, ops)) == encode(m, ops),
{
    let f = form_of(m);
    let name = name_of(m);
    let text = instruction_text(m, ops);
    lemma_name_scans(m);
    let t0 = operand_text(f, 0, ops[0]);
    let dt = operand_text(f, 1, ops[1]) + "("@ + operand_text(f, 2, ops[2]) + ")"@;
    lemma_operand_reads_back(f, 0, ops[0]);
    lemma_displacement_reads_back(f, ops[1], ops[2]);
    assert(tokens(name) == seq![name]);
    lemma_line_next(name, " "@, t0);
    let s1 = name + " "@ + t0;
    assert(dt.len() > 0);
    lemma_line_next(s1, ", "@, dt);
    assert(text =~= s1 + ", "@ + dt);
    let rest = seq![t0, dt];
    assert(tokens(text) =~= seq![name] + rest);
    lemma_operands_of_words(rest, seq![seq![ops[0]], seq![ops[1], ops[2]]]);
    lemma_assembled_from(text, m, rest);
    lemma_flat_2(seq![ops[0]], seq![ops[1], ops[2]]);
    assert(seq![ops[0]] + seq![ops[1], ops[2]] =~= ops);
}

/// The text of an instruction with at most three operands, whose
/// displacement (where its mnemonic is a load or store) is an immediate and
/// its base a register, assembles to what the instruction encodes to.
pub proof fn lemma_instruction_reads_back(m: Mnemonic, ops: Seq<Operand>)
    requires
        ops.len() <= 3,
        form_of(m) is Memory && ops.len() == 3 ==> ops[1] is Immediate && ops[2] is Register,
    ensures
        assembled(instruction_text(m, ops)) == encode(m, ops),
{
    if ops.len() == 0 {
        let text = instruction_text(m, ops);
        lemma_name_scans(m);
        assert(text == name_of(m));
        assert(tokens(text) =~= seq![name_of(m)] + Seq::<Seq<char>>::empty());
        lemma_assembled_from(text, m, Seq::<Seq<char>>::empty());
        assert(ops =~= Seq::<Operand>::empty());
    } else if ops.len() == 1 {
        lemma_reads_back_one(m, ops);
    } else if ops.len() == 2 {
        lemma_reads_back_two(m, ops);
    } else if form_of(m) is Memory {
        lemma_reads_back_displacement(m, ops);
    } else {
        lemma_reads_back_three(m, ops);
    }
}

/// Assembling the text of any word that the codec knows gives the word
/// back: the two directions of the codec agree.
pub proof fn lemma_text_round_trip(w: u32)
    requires
        decode(w) is Some,
    ensures
        assembled(word_text(w)) == Some(w),
{
    lemma_decode_encode(w);
    let (m, ops) = decode(w)->0;
    lemma_instruction_reads_back(m, ops);
}

} // verus!
