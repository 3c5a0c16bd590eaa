//! Choice of tokenizer, made once per file by its extension.

use vstd::prelude::*;

use crate::tokenize_code::{generic_tokens, markup_tokens, path_extension, rust_tokens,
    tokenize_generic_code, tokenize_html_code, tokenize_rust_code};

verus! {

/// The tokenizer variants: a closed set, so the choice is a plain value
/// rather than runtime polymorphism.
#[derive(Clone, Copy, PartialEq, Eq, Structural, Debug)]
pub enum TokenizerKind {
    /// The Rust-aware tokenizer, for `rs` files.
    RustCode,
    /// The markup-aware tokenizer, for `html` and `htm` files.
    Markup,
    /// The generic tokenizer, for everything else.
    Generic,
}

/// Which tokenizer a file gets, by the extension of its path; files without
/// a known extension fall back to the generic tokenizer.
pub open spec fn tokenizer_for(path: Seq<char>) -> TokenizerKind {
    match path_extension(path) {
        Some(e) => {
            if e == "rs"@ {
                TokenizerKind::RustCode
            } else if e == "html"@ || e == "htm"@ {
                TokenizerKind::Markup
            } else {
                TokenizerKind::Generic
            }
        },
        None => TokenizerKind::Generic,
    }
}

/// What a tokenizer variant returns on an input.
pub open spec fn kind_tokens(kind: TokenizerKind, input: Seq<char>) -> Seq<Seq<char>> {
    match kind {
        TokenizerKind::RustCode => rust_tokens(input),
        TokenizerKind::Markup => markup_tokens(input),
        TokenizerKind::Generic => generic_tokens(input),
    }
}

/// Picks the tokenizer for a file path by its extension.
pub fn get_tokenizer(file_path: &str) -> (t: TokenizerKind)
    ensures
        t == tokenizer_for(file_path@),
{
    match crate::tokenize_code::extension_of(file_path) {
        Some(e) => {
            if e == String::from_str("rs") {
                TokenizerKind::RustCode
            } else if e == String::from_str("html") || e == String::from_str("htm") {
                TokenizerKind::Markup
            } else {
                TokenizerKind::Generic
            }
        },
        None => TokenizerKind::Generic,
    }
}

impl TokenizerKind {
    /// Runs this tokenizer on the input text.
    pub fn tokenize(&self, input: &str) -> (tokens: Vec<String>)
        ensures
            tokens.deep_view() == kind_tokens(*self, input@),
    {
        match self {
            TokenizerKind::RustCode => tokenize_rust_code(input),
            TokenizerKind::Markup => tokenize_html_code(input),
            TokenizerKind::Generic => tokenize_generic_code(input),
        }
    }
}

} // verus!
