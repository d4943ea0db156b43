//! The decisions of text generation. The caller runs the model: it feeds
//! the prompt tokens, samples a token from the logits, hands it to
//! `Generation::on_token`, shows the emitted piece, and feeds the token
//! back at the position it is given, until generation is done.
use vstd::prelude::*;
use vstd::string::StringExecFns;

use crate::tensor::error::{tensor_error_text, TensorError};
use crate::text::{push_str, string_from_chars};
use crate::tokenizer::bpe::{
    spec_decode, spec_encode, tokenizer_error_text, BpeTokenizer, TokenizerError,
};

verus! {

/// Errors reported by text generation.
#[derive(Debug)]
pub enum InferenceError {
    TensorError(TensorError),
    TokenizerError(TokenizerError),
    EmptyPrompt,
}

impl From<TensorError> for InferenceError {
    fn from(e: TensorError) -> (r: Self) {
        InferenceError::TensorError(e)
    }
}

impl vstd::std_specs::convert::FromSpecImpl<TensorError> for InferenceError {
    open spec fn obeys_from_spec() -> bool {
        true
    }

    open spec fn from_spec(e: TensorError) -> Self {
        InferenceError::TensorError(e)
    }
}

impl From<TokenizerError> for InferenceError {
    fn from(e: TokenizerError) -> (r: Self) {
        InferenceError::TokenizerError(e)
    }
}

impl vstd::std_specs::convert::FromSpecImpl<TokenizerError> for InferenceError {
    open spec fn obeys_from_spec() -> bool {
        true
    }

    open spec fn from_spec(e: TokenizerError) -> Self {
        InferenceError::TokenizerError(e)
    }
}

/// What to do after a sampled token.
#[derive(Debug)]
pub enum GenerationStep {
    /// Generation is over.
    Done,
    /// `piece` was appended to the text; show it, then feed the token to the
    /// model at position `pos` and sample the next one.
    Emit { piece: String, pos: usize },
}

/// A generation in progress: the position at which the next token is fed,
/// how many more tokens may be generated, and the text generated so far.
#[derive(Debug)]
pub struct Generation {
    pub next_pos: usize,
    pub remaining: usize,
    pub text: String,
}

impl Generation {
    /// Starts generating from `prompt`: `EmptyPrompt` for an empty prompt,
    /// else the prompt's tokens (with BOS) to feed from position 0, and a
    /// state that allows `max_new_tokens` tokens from the position after the
    /// prompt.
    pub fn start(tokenizer: &BpeTokenizer, prompt: &str, max_new_tokens: usize) -> (r: Result<
        (Generation, Vec<usize>),
        InferenceError,
    >)
        ensures
            prompt@.len() == 0 ==> r matches Err(InferenceError::EmptyPrompt),
            prompt@.len() > 0 ==> (r matches Ok((g, toks)) && {
                &&& toks@ == spec_encode(tokenizer.model(), prompt@, true)
                &&& g.next_pos == toks@.len()
                &&& g.remaining == max_new_tokens
                &&& g.text@ == Seq::<char>::empty()
            }),
    {
        if prompt.is_empty() {
            return Err(InferenceError::EmptyPrompt);
        }
        let tokens = tokenizer.encode(prompt, true);
        let g = Generation { next_pos: tokens.len(), remaining: max_new_tokens, text: String::new() };
        Ok((g, tokens))
    }

    /// Takes a sampled token. Generation is done when no more tokens are
    /// allowed or the token is EOS; otherwise the token's text is appended
    /// and emitted with the position to feed it at. A token outside the
    /// vocabulary is `TokenNotFound`.
    pub fn on_token(&mut self, tokenizer: &BpeTokenizer, token: usize) -> (r: Result<
        GenerationStep,
        InferenceError,
    >)
        requires
            old(self).remaining > 0 ==> old(self).next_pos < usize::MAX,
        ensures
            (old(self).remaining == 0 || Some(token) == tokenizer.model().eos_id) ==> (r matches Ok(
                GenerationStep::Done,
            ) && final(self).text@ == old(self).text@ && final(self).next_pos == old(self).next_pos
                && final(self).remaining == old(self).remaining),
            !(old(self).remaining == 0 || Some(token) == tokenizer.model().eos_id) ==> match spec_decode(
                tokenizer.model(),
                seq![token],
            ) {
                Ok(s) => r matches Ok(GenerationStep::Emit { piece, pos }) && piece@ == s && pos
                    == old(self).next_pos && final(self).text@ == old(self).text@ + s
                    && final(self).next_pos == old(self).next_pos + 1 && final(self).remaining
                    == old(self).remaining - 1,
                Err(id) => r matches Err(InferenceError::TokenizerError(TokenizerError::TokenNotFound(e)))
                    && e == id,
            },
    {
        if self.remaining == 0 {
            return Ok(GenerationStep::Done);
        }
        let is_eos = match tokenizer.eos_id() {
            Some(e) => e == token,
            None => false,
        };
        if is_eos {
            return Ok(GenerationStep::Done);
        }
        let one = [token];
        proof {
            assert(one@ =~= seq![token]);
        }
        let piece = match tokenizer.decode(&one) {
            Ok(p) => p,
            Err(e) => {
                return Err(InferenceError::from(e));
            },
        };
        self.text.append(piece.as_str());
        let pos = self.next_pos;
        self.next_pos = self.next_pos + 1;
        self.remaining = self.remaining - 1;
        Ok(GenerationStep::Emit { piece, pos })
    }
}

/// The message shown for a generation error.
pub open spec fn inference_error_text(e: InferenceError) -> Seq<char> {
    match e {
        InferenceError::TensorError(t) => "Tensor runtime error: "@ + tensor_error_text(t),
        InferenceError::TokenizerError(t) => "Tokenizer error: "@ + tokenizer_error_text(t),
        InferenceError::EmptyPrompt => "Prompt cannot be empty"@,
    }
}

impl InferenceError {
    /// The message shown for this error.
    pub fn message(&self) -> (r: String)
        ensures
            r@ == inference_error_text(*self),
    {
        let mut out: Vec<char> = Vec::new();
        match self {
            InferenceError::TensorError(t) => {
                push_str(&mut out, "Tensor runtime error: ");
                t.push_message(&mut out);
            },
            InferenceError::TokenizerError(t) => {
                push_str(&mut out, "Tokenizer error: ");
                t.push_message(&mut out);
            },
            InferenceError::EmptyPrompt => {
                push_str(&mut out, "Prompt cannot be empty");
            },
        }
        proof {
            assert(out@ =~= inference_error_text(*self));
        }
        string_from_chars(out.as_slice())
    }
}

} // verus!
