//! Front end of a small language for pattern-based string transformations: a
//! tokenizer and a recursive-descent parser.
//!
//! [`tokenizer::tokenize`] turns source text into tokens, and [`parser::parse`]
//! turns tokens into a program, a sequence of [`ast::Statement`]s. Both are
//! verified against a grammar that is written down as specification functions:
//! over characters in [`tokenizer`], over tokens in [`parser`] and
//! [`parser::expression`]. The characters themselves are scanned by nom, behind
//! the contracts of [`scan`].
//!
//! [`printer`] and [`writer`] hold no executable code. They say how a program
//! is written as tokens and as text, and prove that it is read back unchanged.

pub mod ast;
pub mod parser;
pub mod printer;
pub mod scan;
pub mod tokenizer;
pub mod writer;
