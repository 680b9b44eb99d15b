//! A small arithmetic-expression calculator core: a lexer that turns text
//! into tokens (numbers, operators, parenthesis groups), a tree builder that
//! imposes operator precedence on a token sequence, and text renderings of
//! tokens, trees and errors. Numeric evaluation over machine floats is left
//! to the caller; numbers travel through this crate as their digit text.

pub mod builder;
pub mod error;
pub mod laws;
pub mod operator;
pub mod render;
pub mod token;

pub use builder::Function;
pub use builder::Token;
pub use error::ErrView;
pub use error::ParsingError;
pub use operator::Operator;
pub use token::Numeral;
pub use token::ParsingToken;
