//! The tokenizer adapter: counting the tokens of a text and decoding the
//! first tokens of a text back to a string.

use vstd::prelude::*;

verus! {

/// The token ids that the `o200k_base` encoding gives a text, special tokens
/// allowed; `None` where the tokenizer reports a failure.
pub uninterp spec fn o200k_tokens(text: Seq<char>) -> Option<Seq<u32>>;

/// Encodes with the shared `o200k_base` instance of `tiktoken_rs`
/// (`o200k_base_singleton`, which builds the encoder once from the
/// vocabulary that the crate carries; then `CoreBPE::encode` with the set of
/// `CoreBPE::special_tokens` allowed, which is what
/// `encode_with_special_tokens` passes). The result is a function of the
/// text alone; an error that `encode` reports comes back as `None`.
#[verifier::external_body]
fn o200k_encode(text: &str) -> (ids: Option<Vec<u32>>)
    ensures
        match ids {
            Some(v) => o200k_tokens(text@) == Some(v@),
            None => o200k_tokens(text@) is None,
        },
{
    let bpe = tiktoken_rs::o200k_base_singleton();
    bpe.encode(text, &bpe.special_tokens()).ok().map(|found| found.0)
}

/// Number of tokens in `text`, or `None` where tokenizing fails.
pub fn count_tokens(text: &str) -> (n: Option<usize>)
    ensures
        match n {
            Some(k) => o200k_tokens(text@) matches Some(ids) && ids.len() == k,
            None => o200k_tokens(text@) is None,
        },
{
    match o200k_encode(text) {
        Some(ids) => Some(ids.len()),
        None => None,
    }
}

/// The text that the `o200k_base` encoding decodes token ids to; `None`
/// where an id is unknown or the bytes are no valid UTF-8.
pub uninterp spec fn o200k_text(ids: Seq<u32>) -> Option<Seq<char>>;

/// Decodes with the shared `o200k_base` instance of `tiktoken_rs`
/// (`o200k_base_singleton`, then `CoreBPE::decode`). The result is a
/// function of the ids alone; an error comes back as `None`.
#[verifier::external_body]
fn o200k_decode(ids: &[u32]) -> (text: Option<String>)
    ensures
        match text {
            Some(t) => o200k_text(ids@) == Some(t@),
            None => o200k_text(ids@) is None,
        },
{
    tiktoken_rs::o200k_base_singleton().decode(ids).ok()
}

/// The text of the first `n` tokens of `ids`, or of all of them where
/// there are fewer; `None` where those tokens do not decode, as happens
/// where the last of them ends in the middle of a character.
pub open spec fn prefix_text(ids: Seq<u32>, n: usize) -> Option<Seq<char>> {
    let keep = if ids.len() <= n as nat {
        ids.len() as int
    } else {
        n as int
    };
    o200k_text(ids.take(keep))
}

/// The text of the first `n` tokens of `s`: empty for `n == 0` or an empty
/// `s`, without tokenizing; `None` where tokenizing `s` fails or its first
/// `n` tokens do not decode.
pub open spec fn first_tokens_text(s: Seq<char>, n: usize) -> Option<Seq<char>> {
    if n == 0 || s.len() == 0 {
        Some(Seq::empty())
    } else {
        match o200k_tokens(s) {
            Some(ids) => prefix_text(ids, n),
            None => None,
        }
    }
}

/// Decodes the first `n` of the given token ids. `None` is returned
/// exactly where they do not decode.
pub fn decode_prefix(ids: &Vec<u32>, n: usize) -> (text: Option<String>)
    ensures
        match text {
            Some(t) => prefix_text(ids@, n) == Some(t@),
            None => prefix_text(ids@, n) is None,
        },
{
    let keep: usize = if ids.len() <= n {
        ids.len()
    } else {
        n
    };
    let slice: &[u32] = ids.as_slice();
    let head: &[u32] = &slice[0..keep];
    assert(head@ =~= ids@.take(keep as int));
    o200k_decode(head)
}

/// Cuts `s` down to its first `n` tokens and returns their text. `None` is
/// returned exactly where tokenizing `s` fails or its first `n` tokens do
/// not decode; no text is made up in their place.
pub fn decode_first_n_tokens(s: &str, n: usize) -> (text: Option<String>)
    ensures
        match text {
            Some(t) => first_tokens_text(s@, n) == Some(t@),
            None => first_tokens_text(s@, n) is None,
        },
{
    if n == 0 || s.is_empty() {
        return Some(String::new());
    }
    match o200k_encode(s) {
        Some(ids) => decode_prefix(&ids, n),
        None => None,
    }
}

} // verus!
