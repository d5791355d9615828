//! Text normalisation for speech synthesis.
//!
//! The crate turns free-form document text (prose or markdown, with
//! citations, markup fragments and code blocks) into a plain form in which
//! every character can be spoken. The work is done by a fixed chain of
//! rewriting stages, each switched and tuned by a [`config::Config`]:
//!
//! 1. [`structural`]: line endings, trailing whitespace, Unicode
//!    normalisation, quotation marks, dashes and ellipses;
//! 2. [`markup`]: markdown and citation markers;
//! 3. [`reflow`]: paragraphs and list bullets;
//! 4. [`whitespace`]: runs of spaces and of blank lines;
//! 5. [`pronounce`]: symbols, brand names, years, acronyms, version
//!    numbers, markup tags and selector-like tokens;
//! 6. [`punctuation`]: commas, slashes and stop characters;
//! 7. [`pipeline`]: the whole chain, the finishing touches, the statistics
//!    and the guardrails.
//!
//! Every stage is a total function from text to text, stated over the
//! characters of the text. Matching by pattern and Unicode normalisation are
//! left to the crates `regex` and `unicode-normalization`; what the library
//! takes from them is named in [`engine`] and [`structural`], and everything
//! around those calls is verified. The fixed patterns are compiled once, in
//! a [`patterns::PatternSet`] that the stages take by reference. [`laws`]
//! holds what is proved of the pipeline as a whole.

pub mod chars;
pub mod config;
pub mod engine;
pub mod laws;
pub mod markup;
pub mod numbers;
pub mod patterns;
pub mod pipeline;
pub mod pronounce;
pub mod punctuation;
pub mod reflow;
pub mod structural;
pub mod table;
pub mod whitespace;
