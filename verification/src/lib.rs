//! A lexical scanner for a small dynamically-typed scripting language.
//!
//! The scanner turns one in-memory source buffer into an ordered list of
//! classified tokens, terminated by a single end-of-input token, together
//! with a list of non-fatal diagnostics. Its behaviour is pinned down by a
//! mathematical model of the scan (`model`), and every public scanning
//! function is proved to agree with that model.


pub mod errors;
pub mod lox;
pub mod model;
pub mod scanner;
pub mod token;

