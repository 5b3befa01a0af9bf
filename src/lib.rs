//! A longest-match lexer: classifies one token at the front of a source string.

pub mod annotation;
pub mod precedence;
pub mod token;
pub mod value;

pub use annotation::Ann;
pub use token::{AnnToken, Consume, Token, TokenModel};
pub use value::{Data, Local};
