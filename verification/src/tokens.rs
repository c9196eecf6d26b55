//! Token counting with the `cl100k_base` BPE vocabulary (the one used by
//! GPT-4 and `text-embedding-ada-002`).  Token counts drive every chunk-size
//! decision.
use vstd::prelude::*;

use crate::error::LoreError;
use crate::text::{chars_of, push_all, string_of};

verus! {

/// `tiktoken_rs::CoreBPE`, held opaque inside [`TokenCounter`].
#[verifier::external_type_specification]
#[verifier::external_body]
pub struct ExCoreBpe(tiktoken_rs::CoreBPE);

/// The number of `cl100k_base` tokens of `text`, special tokens allowed.
pub uninterp spec fn cl100k_token_len(text: Seq<char>) -> nat;

/// Whether `CoreBPE::encode` splits `text` without an error from its regex
/// engine (it fails on pathological input, such as a run of more than a
/// million whitespace characters before a non-space, where the pattern's
/// backtracking exceeds the engine's limit).
pub uninterp spec fn cl100k_encodable(text: Seq<char>) -> bool;

/// A token count as the library stores it: the `cl100k_base` count capped at
/// `u32::MAX`; a text the tokenizer cannot split counts as `u32::MAX`, so it
/// exceeds every size limit.
pub open spec fn capped_tokens(text: Seq<char>) -> u32 {
    if !cl100k_encodable(text) || cl100k_token_len(text) > u32::MAX {
        u32::MAX
    } else {
        cl100k_token_len(text) as u32
    }
}

/// Counts tokens using the `cl100k_base` BPE tokenizer.
pub struct TokenCounter {
    bpe: tiktoken_rs::CoreBPE,
}

/// `tiktoken_rs::cl100k_base`: builds the encoder from the vocabulary and
/// patterns embedded in the crate, which depend on nothing else.  Claimed:
/// it succeeds.
#[verifier::external_body]
fn load_cl100k() -> (r: Result<tiktoken_rs::CoreBPE, String>)
    ensures
        r is Ok,
{
    match tiktoken_rs::cl100k_base() {
        Ok(b) => Ok(b),
        Err(e) => Err(e.to_string()),
    }
}

/// `CoreBPE::encode(text, &special_tokens())` on the counter's vocabulary,
/// the number of tokens it yields.  Every [`TokenCounter`] is made by
/// [`TokenCounter::new`] from `cl100k_base`, so the claim is: it succeeds
/// exactly when [`cl100k_encodable`] holds of `text`, and then gives
/// [`cl100k_token_len`] of `text`; the error is handed back as its message.
/// The empty text gives no token: every alternative of the split pattern
/// matches at least one character.  (`encode` also unwraps the search of the
/// special-token pattern, an alternation of literals, which its regex engine
/// runs without backtracking and never fails.)
#[verifier::external_body]
fn encoded_len(counter: &TokenCounter, text: &str) -> (r: Result<usize, String>)
    ensures
        match r {
            Ok(n) => cl100k_encodable(text@) && n == cl100k_token_len(text@) && (text@.len() == 0 ==> n == 0),
            Err(_) => !cl100k_encodable(text@) && text@.len() > 0,
        },
{
    match counter.bpe.encode(text, &counter.bpe.special_tokens()) {
        Ok((tokens, _)) => Ok(tokens.len()),
        Err(e) => Err(e.to_string()),
    }
}

impl TokenCounter {
    /// Loads the `cl100k_base` vocabulary, which always succeeds; the error
    /// case, `LoreError::Parse("failed to initialise tokenizer: …")`, is kept
    /// for the signature's sake.
    pub fn new() -> (r: Result<TokenCounter, LoreError>)
        ensures
            r is Ok,
    {
        match load_cl100k() {
            Ok(bpe) => Ok(TokenCounter { bpe }),
            Err(e) => {
                let mut m = chars_of("failed to initialise tokenizer: ");
                let ev = chars_of(e.as_str());
                push_all(&mut m, &ev);
                Err(LoreError::Parse(string_of(&m)))
            },
        }
    }

    /// The number of `cl100k_base` tokens in `text`, capped at `u32::MAX`
    /// (which no realistic document reaches); `u32::MAX` as well for a text
    /// the tokenizer cannot split (see [`capped_tokens`]).  The empty text
    /// has no token.
    pub fn count(&self, text: &str) -> (r: u32)
        ensures
            r == capped_tokens(text@),
            text@.len() == 0 ==> r == 0,
    {
        match encoded_len(self, text) {
            Ok(n) => {
                if n > 0xffff_ffffusize {
                    0xffff_ffffu32
                } else {
                    n as u32
                }
            },
            Err(_) => 0xffff_ffffu32,
        }
    }
}

} // verus!
