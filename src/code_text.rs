use vstd::prelude::*;

use crate::assembler::{bounded_value, parse_digits, split_tokens, tokens, views_of};

verus! {

/// The words that a run of tokens writes, each token in hexadecimal.
pub open spec fn token_words(toks: Seq<Seq<char>>) -> Option<Seq<u32>>
    decreases toks.len(),
{
    if toks.len() == 0 {
        Some(seq![])
    } else {
        match (token_words(toks.drop_last()), bounded_value(toks.last(), 16, 0xFFFF_FFFF)) {
            (Some(a), Some(v)) => Some(a.push(v as u32)),
            _ => None,
        }
    }
}

/// Reads the text of a code: words in hexadecimal, without `0x`, separated
/// by spaces, tabs, commas or line breaks. `None` where a token is no such
/// word.
pub fn parse_code_text(text: &str) -> (r: Option<Vec<u32>>)
    ensures
        match token_words(tokens(text@)) {
            Some(ws) => r matches Some(v) && v@ == ws,
            None => r is None,
        },
{
    let toks = split_tokens(text);
    let ghost tv = views_of(toks@);
    let mut words: Vec<u32> = Vec::new();
    let mut i: usize = 0;
    while i < toks.len()
        invariant
            i <= toks@.len(),
            tv == views_of(toks@),
            tv == tokens(text@),
            token_words(tv.take(i as int)) == Some(words@),
        decreases toks@.len() - i,
    {
        let t = &toks[i];
        assert(t@ == tv[i as int]);
        assert(t@.subrange(0, t@.len() as int) =~= t@);
        assert(tv.take(i + 1).drop_last() =~= tv.take(i as int));
        match parse_digits(t, 0, t.len(), 16, 0xFFFF_FFFF) {
            Some(v) => {
                words.push(v as u32);
            },
            None => {
                proof {
                    lemma_words_fail(tv, i + 1);
                }
                return None;
            },
        }
        i = i + 1;
    }
    assert(tv.take(tv.len() as int) =~= tv);
    Some(words)
}

proof fn lemma_words_fail(toks: Seq<Seq<char>>, k: int)
    requires
        0 < k <= toks.len(),
        token_words(toks.take(k)) is None,
    ensures
        token_words(toks) is None,
    decreases toks.len(),
{
    if k < toks.len() {
        assert(toks.drop_last().take(k) =~= toks.take(k));
        lemma_words_fail(toks.drop_last(), k);
    } else {
        assert(toks.take(k) =~= toks);
    }
}

} // verus!
