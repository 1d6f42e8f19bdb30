//! An arithmetic evaluator over arbitrary-precision decimal values.
//!
//! A line of infix text is tokenized, rewritten into postfix order by the
//! shunting-yard algorithm, and executed against an operand stack.  Every
//! stage is specified against a mathematical model of the token stream; the
//! arbitrary-precision arithmetic itself is delegated to outside libraries
//! behind a small set of trusted wrappers in [`number`].

pub mod constants;
pub mod error;
pub mod eval;
pub mod functions;
pub mod laws;
pub mod number;
pub mod parser;
pub mod token;
