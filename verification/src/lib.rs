//! A small expression language: source text is cut into tokens, tokens are
//! parsed into a syntax tree, and the tree is evaluated against a chain of
//! scopes.
//!
//! ```text
//! add(a, b) = a + b
//! x = add(2, 3)
//! x * 2
//! ```
//!
//! `parse::parse` reads a text as a program. `interpret::Interpreter`
//! evaluates a program against an `interpret::scope::RuntimeScope`; the value
//! of a program is that of its last expression.
//!
//! Numbers are carried as the 64 bits of their IEEE 754 binary64 form. What
//! number a literal stands for is asked of a function that the caller gives
//! to the parser, and what the sum, difference, product or quotient of two
//! numbers is, of a function that the caller gives to the interpreter.
//! Everything else is decided here, and proved: each function yields exactly
//! what the mathematical description beside it says
//! (`parse::tokens::tokens_from`, `parse::grammar::program`,
//! `interpret::semantics::eval`). What follows from those descriptions for
//! every text, tree and scope is proved beside them: reading is a function
//! of the text and yields well-formed trees; evaluation touches the
//! innermost frame only, looks free names up where the call stands, and
//! never hands out an assignment target (`interpret::laws`).

pub mod interpret;
pub mod parse;
